//! The scheduling core of the parallel renderer.
//!
//! A render partitions the pixel grid into square-edged tiles that cover it
//! exactly and disjointly, splits the tile list into contiguous chunks, one
//! per worker, and aggregates the workers' per-pixel results into the canvas.
//! Because no two tiles share a pixel, each pixel is written exactly once,
//! and the finished canvas does not depend on worker scheduling; evaluating a
//! pixel's color is numeric work that belongs to the caller.

use vstd::prelude::*;

use vstd::arithmetic::div_mod::lemma_fundamental_div_mod;
use vstd::arithmetic::div_mod::lemma_fundamental_div_mod_converse;
use vstd::arithmetic::div_mod::lemma_div_is_ordered;
use vstd::arithmetic::div_mod::lemma_div_multiples_vanish;
use vstd::arithmetic::div_mod::lemma_mod_bound;

verus! {

/// A rectangular block of pixels, the unit of work handed to one worker.
#[derive(Clone, Copy, Debug, PartialEq, Eq, Structural)]
pub struct Tile {
    pub x: usize,
    pub y: usize,
    pub w: usize,
    pub h: usize,
}

impl Tile {
    /// Whether the pixel at (px, py) belongs to this tile.
    pub open spec fn spec_contains(self, px: int, py: int) -> bool {
        self.x <= px < self.x + self.w && self.y <= py < self.y + self.h
    }
}

/// How many tiles of the given edge cover one axis of the given size.
pub open spec fn tiles_across(size: int, edge: int) -> int {
    (size + edge - 1) / edge
}

/// Tile `i` of the grid: as wide and tall as the edge, except clipped at the
/// right and bottom image borders; tiles are numbered row-major.
pub open spec fn tile_matches(t: Tile, width: int, height: int, edge: int, i: int) -> bool {
    let cols = tiles_across(width, edge);
    let tx = (i % cols) * edge;
    let ty = (i / cols) * edge;
    &&& t.x == tx
    &&& t.y == ty
    &&& t.w == (if tx + edge <= width {
        edge
    } else {
        width - tx
    })
    &&& t.h == (if ty + edge <= height {
        edge
    } else {
        height - ty
    })
}

/// The whole tile list of a width × height image.
pub open spec fn tile_grid_matches(tiles: Seq<Tile>, width: int, height: int, edge: int) -> bool {
    &&& tiles.len() == tiles_across(width, edge) * tiles_across(height, edge)
    &&& forall|i: int|
        0 <= i < tiles.len() ==> #[trigger] tile_matches(tiles[i], width, height, edge, i)
}

/// A tile column (or row) index times the edge stays inside the image.
proof fn lemma_tile_origin_in_range(size: int, edge: int, col: int)
    requires
        edge > 0,
        0 <= col < tiles_across(size, edge),
    ensures
        0 <= col * edge < size,
{
    lemma_fundamental_div_mod(size + edge - 1, edge);
    lemma_mod_bound(size + edge - 1, edge);
    let q = (size + edge - 1) / edge;
    let r = (size + edge - 1) % edge;
    assert(0 <= col * edge && col * edge < size) by (nonlinear_arith)
        requires
            edge > 0,
            0 <= col,
            col < q,
            size + edge - 1 == edge * q + r,
            0 <= r < edge,
    ;
}

/// An image axis is covered by its tiles: the axis size is at most the tile
/// count times the edge.
proof fn lemma_tiles_across_covers(size: int, edge: int)
    requires
        edge > 0,
        size >= 0,
    ensures
        tiles_across(size, edge) * edge >= size,
        tiles_across(size, edge) >= 0,
{
    lemma_fundamental_div_mod(size + edge - 1, edge);
    lemma_mod_bound(size + edge - 1, edge);
    let q = (size + edge - 1) / edge;
    let r = (size + edge - 1) % edge;
    assert(q * edge >= size && q >= 0) by (nonlinear_arith)
        requires
            edge > 0,
            size >= 0,
            size + edge - 1 == edge * q + r,
            0 <= r < edge,
    ;
}

/// Partition a width × height pixel grid into tiles of the given edge.
pub fn tile_grid(width: usize, height: usize, edge: usize) -> (tiles: Vec<Tile>)
    requires
        edge > 0,
        width + edge <= usize::MAX,
        height + edge <= usize::MAX,
    ensures
        tile_grid_matches(tiles@, width as int, height as int, edge as int),
{
    let cols = (width + edge - 1) / edge;
    let rows = (height + edge - 1) / edge;
    let mut tiles: Vec<Tile> = Vec::new();
    let mut row: usize = 0;
    while row < rows
        invariant
            edge > 0,
            row <= rows,
            cols == tiles_across(width as int, edge as int),
            rows == tiles_across(height as int, edge as int),
            tiles@.len() == row * cols,
            forall|i: int|
                0 <= i < tiles@.len() ==> #[trigger] tile_matches(
                    tiles@[i],
                    width as int,
                    height as int,
                    edge as int,
                    i,
                ),
        decreases rows - row,
    {
        proof {
            lemma_tile_origin_in_range(height as int, edge as int, row as int);
        }
        let ty = row * edge;
        let th = if height - ty >= edge {
            edge
        } else {
            height - ty
        };
        let mut col: usize = 0;
        while col < cols
            invariant
                edge > 0,
                row < rows,
                col <= cols,
                cols == tiles_across(width as int, edge as int),
                rows == tiles_across(height as int, edge as int),
                ty == row * edge,
                ty as int == (row as int) * (edge as int),
                th as int == (if ty + edge <= height {
                    edge as int
                } else {
                    height - ty
                }),
                tiles@.len() == row * cols + col,
                forall|i: int|
                    0 <= i < tiles@.len() ==> #[trigger] tile_matches(
                        tiles@[i],
                        width as int,
                        height as int,
                        edge as int,
                        i,
                    ),
            decreases cols - col,
        {
            proof {
                lemma_tile_origin_in_range(width as int, edge as int, col as int);
            }
            let tx = col * edge;
            let tw = if width - tx >= edge {
                edge
            } else {
                width - tx
            };
            let ghost i = tiles@.len() as int;
            tiles.push(Tile { x: tx, y: ty, w: tw, h: th });
            proof {
                lemma_fundamental_div_mod_converse(i, cols as int, row as int, col as int);
                assert(tile_matches(
                    tiles@[i],
                    width as int,
                    height as int,
                    edge as int,
                    i,
                ));
            }
            col = col + 1;
        }
        proof {
            assert((row as int) * (cols as int) + cols as int == (row as int + 1) * (cols as int))
                by (nonlinear_arith);
        }
        row = row + 1;
    }
    proof {
        assert((rows as int) * (cols as int) == (cols as int) * (rows as int))
            by (nonlinear_arith);
    }
    tiles
}

/// The number of the tile that owns the pixel at (px, py).
pub open spec fn tile_index_of(width: int, edge: int, px: int, py: int) -> int {
    (py / edge) * tiles_across(width, edge) + px / edge
}

/// The law behind per-pixel write-once rendering: every pixel of the image
/// belongs to exactly one tile of the grid, the one `tile_index_of` names.
pub proof fn lemma_tile_grid_partitions(
    tiles: Seq<Tile>,
    width: int,
    height: int,
    edge: int,
    px: int,
    py: int,
)
    requires
        edge > 0,
        tile_grid_matches(tiles, width, height, edge),
        0 <= px < width,
        0 <= py < height,
    ensures
        0 <= tile_index_of(width, edge, px, py) < tiles.len(),
        tiles[tile_index_of(width, edge, px, py)].spec_contains(px, py),
        forall|j: int|
            0 <= j < tiles.len() && j != tile_index_of(width, edge, px, py)
                ==> !(#[trigger] tiles[j].spec_contains(px, py)),
{
    let cols = tiles_across(width, edge);
    let rows = tiles_across(height, edge);
    let cx = px / edge;
    let cy = py / edge;
    let idx = tile_index_of(width, edge, px, py);
    lemma_fundamental_div_mod(px, edge);
    lemma_mod_bound(px, edge);
    lemma_fundamental_div_mod(py, edge);
    lemma_mod_bound(py, edge);
    lemma_tiles_across_covers(width, edge);
    lemma_tiles_across_covers(height, edge);
    assert(0 <= cx < cols && 0 <= cy < rows) by (nonlinear_arith)
        requires
            edge > 0,
            0 <= px < width,
            0 <= py < height,
            px == edge * cx + px % edge,
            0 <= px % edge < edge,
            py == edge * cy + py % edge,
            0 <= py % edge < edge,
            cols * edge >= width,
            rows * edge >= height,
            cols >= 0,
            rows >= 0,
    ;
    assert(0 <= idx < rows * cols && idx == cy * cols + cx) by (nonlinear_arith)
        requires
            0 <= cx < cols,
            0 <= cy < rows,
            idx == cy * cols + cx,
    ;
    lemma_fundamental_div_mod_converse(idx, cols, cy, cx);
    assert(tile_matches(tiles[idx], width, height, edge, idx));
    assert(tiles[idx].x == cx * edge && tiles[idx].y == cy * edge);
    assert(tiles[idx].spec_contains(px, py)) by (nonlinear_arith)
        requires
            edge > 0,
            tiles[idx].x == cx * edge,
            tiles[idx].y == cy * edge,
            px == edge * cx + px % edge,
            0 <= px % edge < edge,
            py == edge * cy + py % edge,
            0 <= py % edge < edge,
            px < width,
            py < height,
            tiles[idx].w == (if cx * edge + edge <= width {
                edge as int
            } else {
                width - cx * edge
            }),
            tiles[idx].h == (if cy * edge + edge <= height {
                edge as int
            } else {
                height - cy * edge
            }),
    ;
    assert forall|j: int| 0 <= j < tiles.len() && j != idx implies !(#[trigger] tiles[j].spec_contains(
        px,
        py,
    )) by {
        if tiles[j].spec_contains(px, py) {
            assert(tile_matches(tiles[j], width, height, edge, j));
            let jc = j % cols;
            let jr = j / cols;
            assert(cols > 0) by (nonlinear_arith)
                requires
                    0 <= cx < cols,
            ;
            lemma_fundamental_div_mod(j, cols);
            lemma_mod_bound(j, cols);
            assert(jc == cx && jr == cy) by (nonlinear_arith)
                requires
                    edge > 0,
                    cols > 0,
                    tiles[j].x == jc * edge,
                    tiles[j].y == jr * edge,
                    tiles[j].w <= edge,
                    tiles[j].h <= edge,
                    tiles[j].x <= px < tiles[j].x + tiles[j].w,
                    tiles[j].y <= py < tiles[j].y + tiles[j].h,
                    px == edge * cx + px % edge,
                    0 <= px % edge < edge,
                    py == edge * cy + py % edge,
                    0 <= py % edge < edge,
            ;
            assert(j == jr * cols + jc) by {
                lemma_fundamental_div_mod(j, cols);
            }
            assert(j == idx) by (nonlinear_arith)
                requires
                    j == jr * cols + jc,
                    idx == cy * cols + cx,
                    jr == cy,
                    jc == cx,
            ;
        }
    }
}

/// The half-open range of tile numbers the i-th of n workers owns.
pub open spec fn chunk_start(len: int, workers: int, i: int) -> int {
    i * len / workers
}

/// Split `len` work items into `workers` contiguous chunks; chunk `i` is the
/// half-open range `r[i].0 .. r[i].1`, and together they cover `0 .. len`.
pub fn chunk_ranges(len: usize, workers: usize) -> (r: Vec<(usize, usize)>)
    requires
        workers >= 1,
        len * workers <= usize::MAX,
    ensures
        r@.len() == workers,
        forall|i: int|
            0 <= i < workers ==> (#[trigger] r@[i]).0 == chunk_start(len as int, workers as int, i)
                && r@[i].1 == chunk_start(len as int, workers as int, i + 1),
        r@[0].0 == 0,
        r@[workers - 1].1 == len,
        forall|i: int| 0 <= i < workers ==> (#[trigger] r@[i]).0 <= r@[i].1,
        forall|i: int| 0 <= i < workers - 1 ==> (#[trigger] r@[i]).1 == r@[i + 1].0,
{
    let mut r: Vec<(usize, usize)> = Vec::new();
    let mut i: usize = 0;
    while i < workers
        invariant
            i <= workers,
            workers >= 1,
            len * workers <= usize::MAX,
            r@.len() == i,
            forall|k: int|
                0 <= k < i ==> (#[trigger] r@[k]).0 == chunk_start(len as int, workers as int, k)
                    && r@[k].1 == chunk_start(len as int, workers as int, k + 1),
        decreases workers - i,
    {
        proof {
            assert(i * len <= len * workers && (i + 1) * len <= len * workers && i * len <= (i + 1)
                * len) by (nonlinear_arith)
                requires
                    0 <= i < workers,
                    len >= 0,
            ;
        }
        let start = i * len / workers;
        let end = (i + 1) * len / workers;
        proof {
            lemma_div_is_ordered(
                (i as int) * (len as int),
                (i as int + 1) * (len as int),
                workers as int,
            );
        }
        r.push((start, end));
        i = i + 1;
    }
    proof {
        assert forall|k: int| 0 <= k < workers as int implies (#[trigger] r@[k]).0 <= r@[k].1 by {
            assert(k * (len as int) <= (k + 1) * (len as int)) by (nonlinear_arith)
                requires
                    len >= 0,
            ;
            lemma_div_is_ordered(k * (len as int), (k + 1) * (len as int), workers as int);
        }
        assert(r@[0].0 == chunk_start(len as int, workers as int, 0));
        assert(r@[workers - 1].1 == chunk_start(len as int, workers as int, workers as int));
        assert(chunk_start(len as int, workers as int, workers as int) == len as int) by {
            lemma_div_multiples_vanish(len as int, workers as int);
            assert((workers as int) * (len as int) / (workers as int) == len as int);
        }
    }
    r
}

/// Consecutive ranges do not overlap: an earlier range ends before a later
/// one starts.
proof fn lemma_ranges_monotone(r: Seq<(usize, usize)>, i: int, j: int)
    requires
        forall|k: int| 0 <= k < r.len() ==> #[trigger] r[k].0 <= r[k].1,
        forall|k: int| 0 <= k < r.len() - 1 ==> #[trigger] r[k].1 == r[k + 1].0,
        0 <= i < j < r.len(),
    ensures
        r[i].1 <= r[j].0,
    decreases j - i,
{
    if j == i + 1 {
    } else {
        lemma_ranges_monotone(r, i, j - 1);
    }
}

/// Work item `k` belongs to range `i` of the list.
pub open spec fn range_holds(r: Seq<(usize, usize)>, i: int, k: int) -> bool {
    r[i].0 <= k < r[i].1
}

/// The law behind lossless work distribution: every work item falls in
/// exactly one of a list of consecutive ranges that starts at zero and ends
/// at the number of items.
pub proof fn lemma_ranges_partition(r: Seq<(usize, usize)>, k: int)
    requires
        r.len() >= 1,
        r[0].0 == 0,
        forall|i: int| 0 <= i < r.len() ==> #[trigger] r[i].0 <= r[i].1,
        forall|i: int| 0 <= i < r.len() - 1 ==> #[trigger] r[i].1 == r[i + 1].0,
        0 <= k < r[r.len() - 1].1,
    ensures
        exists|i: int| 0 <= i < r.len() && #[trigger] range_holds(r, i, k),
        forall|i: int, j: int|
            0 <= i < r.len() && 0 <= j < r.len() && #[trigger] range_holds(r, i, k)
                && #[trigger] range_holds(r, j, k) ==> i == j,
    decreases r.len(),
{
    let last = r.len() - 1;
    if k >= r[last].0 {
        assert(range_holds(r, last, k));
    } else {
        assert(r.len() >= 2);
        let prefix = r.drop_last();
        assert(forall|i: int| 0 <= i < prefix.len() ==> prefix[i] == r[i]);
        assert(prefix[prefix.len() - 1].1 == r[last].0);
        lemma_ranges_partition(prefix, k);
        let i = choose|i: int| 0 <= i < prefix.len() && #[trigger] range_holds(prefix, i, k);
        assert(range_holds(r, i, k));
    }
    assert forall|i: int, j: int|
        0 <= i < r.len() && 0 <= j < r.len() && #[trigger] range_holds(r, i, k)
            && #[trigger] range_holds(r, j, k) implies i == j by {
        if i < j {
            lemma_ranges_monotone(r, i, j);
        }
        if j < i {
            lemma_ranges_monotone(r, j, i);
        }
    }
}

} // verus!

//! The world grid and the chunk synchronization bookkeeping.
//!
//! The grid is two parallel row-major tile layers.  It is synchronized in
//! chunks of `CHUNK_SIZE × CHUNK_SIZE` tiles; a sequence number per chunk
//! deduplicates pushes: only a strictly newer chunk is applied.

use crate::humanoid::tile_at;
use crate::tile::Tile;
use vstd::prelude::*;
use vstd::pervasive::VecAdditionalExecFns;

verus! {

/// The world grid: two tile layers and one sequence number per chunk.
#[derive(Clone, Debug)]
pub struct World {
    pub world_w: usize,
    pub world_h: usize,
    pub chunk_seqs: Vec<u32>,
    pub fg_tiles: Vec<Tile>,
    pub bg_tiles: Vec<Tile>,
}

/// The tile at `(gx, gy)` lies in the chunk at `(cx, cy)`.
pub open spec fn in_chunk(cx: int, cy: int, gx: int, gy: int) -> bool {
    cx * 8 <= gx < cx * 8 + 8 && cy * 8 <= gy < cy * 8 + 8
}

impl World {
    /// Number of chunk columns.
    pub open spec fn spec_chunks_w(self) -> int {
        self.world_w as int / 8
    }

    /// Number of chunk rows.
    pub open spec fn spec_chunks_h(self) -> int {
        self.world_h as int / 8
    }

    /// Well-formed world: whole chunks only, every buffer sized to the grid.
    pub open spec fn wf(self) -> bool {
        &&& self.world_w as int == 8 * self.spec_chunks_w()
        &&& self.world_h as int == 8 * self.spec_chunks_h()
        &&& self.world_w >= 8
        &&& self.world_h >= 8
        &&& self.fg_tiles@.len() == self.world_w * self.world_h
        &&& self.bg_tiles@.len() == self.world_w * self.world_h
        &&& self.chunk_seqs@.len() == self.spec_chunks_w() * self.spec_chunks_h()
    }

    /// Stored sequence number of the chunk at `(cx, cy)`.
    pub open spec fn spec_chunk_seq(self, cx: int, cy: int) -> u32 {
        self.chunk_seqs@[cx + cy * self.spec_chunks_w()]
    }

    /// An all-air world with every chunk sequence number at `seq0`.
    pub fn new(world_w: usize, world_h: usize, seq0: u32) -> (r: World)
        requires
            world_w % 8 == 0,
            world_h % 8 == 0,
            8 <= world_w,
            8 <= world_h,
            world_w * world_h <= usize::MAX,
        ensures
            r.wf(),
            r.world_w == world_w,
            r.world_h == world_h,
            forall|i: int| 0 <= i < r.chunk_seqs@.len() ==> r.chunk_seqs@[i] == seq0,
            forall|i: int| 0 <= i < r.fg_tiles@.len() ==> r.fg_tiles@[i] == Tile::Air,
            forall|i: int| 0 <= i < r.bg_tiles@.len() ==> r.bg_tiles@[i] == Tile::Air,
    {
        let cells: usize = world_w * world_h;
        let cw: usize = world_w / 8;
        let ch: usize = world_h / 8;
        proof {
            assert(world_w as int == 8 * (world_w as int / 8) + (world_w as int % 8));
            assert(world_h as int == 8 * (world_h as int / 8) + (world_h as int % 8));
            assert(cw as int * ch as int <= cells) by (nonlinear_arith)
                requires
                    cw as int * 8 <= world_w,
                    ch as int * 8 <= world_h,
                    0 <= cw,
                    0 <= ch,
                    cells == world_w * world_h,
            ;
        }
        let nchunks: usize = cw * ch;
        let mut chunk_seqs: Vec<u32> = Vec::new();
        let mut k: usize = 0;
        while k < nchunks
            invariant
                k <= nchunks,
                chunk_seqs@.len() == k,
                forall|i: int| 0 <= i < k ==> chunk_seqs@[i] == seq0,
            decreases nchunks - k,
        {
            chunk_seqs.push(seq0);
            k = k + 1;
        }
        let mut fg_tiles: Vec<Tile> = Vec::new();
        let mut k: usize = 0;
        while k < cells
            invariant
                k <= cells,
                fg_tiles@.len() == k,
                forall|i: int| 0 <= i < k ==> fg_tiles@[i] == Tile::Air,
            decreases cells - k,
        {
            fg_tiles.push(Tile::Air);
            k = k + 1;
        }
        let mut bg_tiles: Vec<Tile> = Vec::new();
        let mut k: usize = 0;
        while k < cells
            invariant
                k <= cells,
                bg_tiles@.len() == k,
                forall|i: int| 0 <= i < k ==> bg_tiles@[i] == Tile::Air,
            decreases cells - k,
        {
            bg_tiles.push(Tile::Air);
            k = k + 1;
        }
        World { world_w, world_h, chunk_seqs, fg_tiles, bg_tiles }
    }

    /// Stored sequence number of a chunk.
    pub fn chunk_seq(&self, cx: u16, cy: u16) -> (r: u32)
        requires
            self.wf(),
            cx < self.spec_chunks_w(),
            cy < self.spec_chunks_h(),
        ensures
            r == self.spec_chunk_seq(cx as int, cy as int),
    {
        let cw = self.world_w / 8;
        let nseq = self.chunk_seqs.len();
        proof {
            assert(cx as int + cy as int * (cw as int) < self.chunk_seqs@.len()) by (nonlinear_arith)
                requires
                    0 <= cx as int,
                    (cx as int) < cw as int,
                    0 <= cy as int,
                    (cy as int) < self.spec_chunks_h(),
                    cw as int == self.spec_chunks_w(),
                    self.chunk_seqs@.len() == self.spec_chunks_w() * self.spec_chunks_h(),
            ;
        }
        self.chunk_seqs[(cx as usize) + (cy as usize) * cw]
    }

    /// Applies one `ChunkSync` push: a sequence number not above the stored
    /// one never mutates anything; a strictly newer one always overwrites the
    /// chunk's tiles in both layers and the stored sequence number, and
    /// nothing else.
    #[verifier::loop_isolation(false)]
    pub fn apply_chunk_sync(
        &mut self,
        cx: u16,
        cy: u16,
        seq: u32,
        fg: &Vec<Tile>,
        bg: &Vec<Tile>,
    ) -> (applied: bool)
        requires
            old(self).wf(),
            cx < old(self).spec_chunks_w(),
            cy < old(self).spec_chunks_h(),
            fg@.len() == 64,
            bg@.len() == 64,
        ensures
            final(self).wf(),
            final(self).world_w == old(self).world_w,
            final(self).world_h == old(self).world_h,
            applied <==> seq > old(self).spec_chunk_seq(cx as int, cy as int),
            !applied ==> *final(self) == *old(self),
            applied ==> ({
                let w = old(self).world_w as int;
                let h = old(self).world_h as int;
                &&& final(self).chunk_seqs@ == old(self).chunk_seqs@.update(
                    cx as int + cy as int * old(self).spec_chunks_w(),
                    seq,
                )
                &&& forall|gx: int, gy: int|
                    0 <= gx < w && 0 <= gy < h ==> #[trigger] tile_at(
                        final(self).fg_tiles@,
                        w,
                        gx,
                        gy,
                    ) == if in_chunk(cx as int, cy as int, gx, gy) {
                        tile_at(fg@, 8, gx - cx as int * 8, gy - cy as int * 8)
                    } else {
                        tile_at(old(self).fg_tiles@, w, gx, gy)
                    }
                &&& forall|gx: int, gy: int|
                    0 <= gx < w && 0 <= gy < h ==> #[trigger] tile_at(
                        final(self).bg_tiles@,
                        w,
                        gx,
                        gy,
                    ) == if in_chunk(cx as int, cy as int, gx, gy) {
                        tile_at(bg@, 8, gx - cx as int * 8, gy - cy as int * 8)
                    } else {
                        tile_at(old(self).bg_tiles@, w, gx, gy)
                    }
            }),
    {
        let cw = self.world_w / 8;
        let w = self.world_w;
        let nseq_anchor = self.chunk_seqs.len();
        let nfg_anchor = self.fg_tiles.len();
        let nbg_anchor = self.bg_tiles.len();
        let ghost wi = w as int;
        let ghost cxi = cx as int;
        let ghost cyi = cy as int;
        proof {
            let chs = old(self).spec_chunks_h();
            let cws = old(self).spec_chunks_w();
            let nseq = self.chunk_seqs@.len() as int;
            assert(cx as int + cy as int * (cw as int) < nseq) by (nonlinear_arith)
                requires
                    0 <= cx as int,
                    (cx as int) < cw as int,
                    0 <= cy as int,
                    (cy as int) < chs,
                    cw as int == cws,
                    nseq == cws * chs,
            ;
        }
        let cidx = (cx as usize) + (cy as usize) * cw;
        let cur = self.chunk_seqs[cidx];
        if seq <= cur {
            return false;
        }
        self.chunk_seqs.set(cidx, seq);
        proof {
            // The whole chunk rectangle lies in the grid.
            assert(cxi * 8 + 8 <= wi && cyi * 8 + 8 <= old(self).world_h as int);
            let hh = old(self).world_h as int;
            let flen = old(self).fg_tiles@.len() as int;
            assert((hh - 1) * wi + wi <= flen) by (nonlinear_arith)
                requires
                    flen == wi * hh,
                    wi >= 1,
                    hh >= 1,
            ;
        }
        let mut y: usize = 0;
        while y < 8
            invariant
                y <= 8,
                self.world_w == old(self).world_w,
                self.world_h == old(self).world_h,
                self.chunk_seqs@ == old(self).chunk_seqs@.update(cxi + cyi * (wi / 8), seq),
                self.fg_tiles@.len() == old(self).fg_tiles@.len(),
                self.bg_tiles@.len() == old(self).bg_tiles@.len(),
                forall|gx: int, gy: int|
                    0 <= gx < wi && 0 <= gy < old(self).world_h ==> #[trigger] tile_at(
                        self.fg_tiles@,
                        wi,
                        gx,
                        gy,
                    ) == if in_chunk(cxi, cyi, gx, gy) && gy < cyi * 8 + y {
                        tile_at(fg@, 8, gx - cxi * 8, gy - cyi * 8)
                    } else {
                        tile_at(old(self).fg_tiles@, wi, gx, gy)
                    },
                forall|gx: int, gy: int|
                    0 <= gx < wi && 0 <= gy < old(self).world_h ==> #[trigger] tile_at(
                        self.bg_tiles@,
                        wi,
                        gx,
                        gy,
                    ) == if in_chunk(cxi, cyi, gx, gy) && gy < cyi * 8 + y {
                        tile_at(bg@, 8, gx - cxi * 8, gy - cyi * 8)
                    } else {
                        tile_at(old(self).bg_tiles@, wi, gx, gy)
                    },
            decreases 8 - y,
        {
            let mut x: usize = 0;
            while x < 8
                invariant
                    x <= 8,
                    y < 8,
                    self.world_w == old(self).world_w,
                    self.world_h == old(self).world_h,
                    self.chunk_seqs@ == old(self).chunk_seqs@.update(cxi + cyi * (wi / 8), seq),
                    self.fg_tiles@.len() == old(self).fg_tiles@.len(),
                    self.bg_tiles@.len() == old(self).bg_tiles@.len(),
                    forall|gx: int, gy: int|
                        0 <= gx < wi && 0 <= gy < old(self).world_h ==> #[trigger] tile_at(
                            self.fg_tiles@,
                            wi,
                            gx,
                            gy,
                        ) == if in_chunk(cxi, cyi, gx, gy) && (gy < cyi * 8 + y || (gy == cyi * 8
                            + y && gx < cxi * 8 + x)) {
                            tile_at(fg@, 8, gx - cxi * 8, gy - cyi * 8)
                        } else {
                            tile_at(old(self).fg_tiles@, wi, gx, gy)
                        },
                    forall|gx: int, gy: int|
                        0 <= gx < wi && 0 <= gy < old(self).world_h ==> #[trigger] tile_at(
                            self.bg_tiles@,
                            wi,
                            gx,
                            gy,
                        ) == if in_chunk(cxi, cyi, gx, gy) && (gy < cyi * 8 + y || (gy == cyi * 8
                            + y && gx < cxi * 8 + x)) {
                            tile_at(bg@, 8, gx - cxi * 8, gy - cyi * 8)
                        } else {
                            tile_at(old(self).bg_tiles@, wi, gx, gy)
                        },
                decreases 8 - x,
            {
                let src_index = x + y * 8;
                let gx = x + (cx as usize) * 8;
                let gy = y + (cy as usize) * 8;
                proof {
                    let hh = old(self).world_h as int;
                    let flen = self.fg_tiles@.len() as int;
                    assert(gx as int + (gy as int) * wi < flen) by (nonlinear_arith)
                        requires
                            0 <= gx as int,
                            (gx as int) < wi,
                            0 <= gy as int,
                            (gy as int) < hh,
                            flen == wi * hh,
                    ;
                }
                let dst_index = gx + gy * w;
                let fgv = fg[src_index];
                let bgv = bg[src_index];
                let ghost fg_prev = self.fg_tiles@;
                let ghost bg_prev = self.bg_tiles@;
                self.fg_tiles.set(dst_index, fgv);
                self.bg_tiles.set(dst_index, bgv);
                proof {
                    assert forall|ax: int, ay: int|
                        0 <= ax < wi && 0 <= ay < old(self).world_h implies #[trigger] tile_at(
                        self.fg_tiles@,
                        wi,
                        ax,
                        ay,
                    ) == if in_chunk(cxi, cyi, ax, ay) && (ay < cyi * 8 + y || (ay == cyi * 8 + y
                        && ax < cxi * 8 + x + 1)) {
                        tile_at(fg@, 8, ax - cxi * 8, ay - cyi * 8)
                    } else {
                        tile_at(old(self).fg_tiles@, wi, ax, ay)
                    } by {
                        assert(ax + ay * wi == gx as int + (gy as int) * wi <==> (ax == gx && ay
                            == gy)) by (nonlinear_arith)
                            requires
                                0 <= ax < wi,
                                0 <= gx as int,
                                (gx as int) < wi,
                                0 <= ay,
                                0 <= gy as int,
                        ;
                        if !(ax == gx && ay == gy) {
                            let hh = old(self).world_h as int;
                            let flen = fg_prev.len() as int;
                            assert(0 <= ax + ay * wi < flen) by (nonlinear_arith)
                                requires
                                    0 <= ax < wi,
                                    0 <= ay < hh,
                                    flen == wi * hh,
                            ;
                            assert(tile_at(self.fg_tiles@, wi, ax, ay) == tile_at(
                                fg_prev,
                                wi,
                                ax,
                                ay,
                            ));
                        }
                    }
                    assert forall|ax: int, ay: int|
                        0 <= ax < wi && 0 <= ay < old(self).world_h implies #[trigger] tile_at(
                        self.bg_tiles@,
                        wi,
                        ax,
                        ay,
                    ) == if in_chunk(cxi, cyi, ax, ay) && (ay < cyi * 8 + y || (ay == cyi * 8 + y
                        && ax < cxi * 8 + x + 1)) {
                        tile_at(bg@, 8, ax - cxi * 8, ay - cyi * 8)
                    } else {
                        tile_at(old(self).bg_tiles@, wi, ax, ay)
                    } by {
                        assert(ax + ay * wi == gx as int + (gy as int) * wi <==> (ax == gx && ay
                            == gy)) by (nonlinear_arith)
                            requires
                                0 <= ax < wi,
                                0 <= gx as int,
                                (gx as int) < wi,
                                0 <= ay,
                                0 <= gy as int,
                        ;
                        if !(ax == gx && ay == gy) {
                            let hh = old(self).world_h as int;
                            let blen = bg_prev.len() as int;
                            assert(0 <= ax + ay * wi < blen) by (nonlinear_arith)
                                requires
                                    0 <= ax < wi,
                                    0 <= ay < hh,
                                    blen == wi * hh,
                            ;
                            assert(tile_at(self.bg_tiles@, wi, ax, ay) == tile_at(
                                bg_prev,
                                wi,
                                ax,
                                ay,
                            ));
                        }
                    }
                }
                x = x + 1;
            }
            y = y + 1;
        }
        true
    }

    /// Copies the tiles of one chunk out of both layers, row-major.
    #[verifier::loop_isolation(false)]
    pub fn extract_chunk(&self, cx: u16, cy: u16) -> (r: (Vec<Tile>, Vec<Tile>))
        requires
            self.wf(),
            cx < self.spec_chunks_w(),
            cy < self.spec_chunks_h(),
        ensures
            r.0@.len() == 64,
            r.1@.len() == 64,
            forall|x: int, y: int|
                0 <= x < 8 && 0 <= y < 8 ==> #[trigger] tile_at(r.0@, 8, x, y) == tile_at(
                    self.fg_tiles@,
                    self.world_w as int,
                    cx as int * 8 + x,
                    cy as int * 8 + y,
                ),
            forall|x: int, y: int|
                0 <= x < 8 && 0 <= y < 8 ==> #[trigger] tile_at(r.1@, 8, x, y) == tile_at(
                    self.bg_tiles@,
                    self.world_w as int,
                    cx as int * 8 + x,
                    cy as int * 8 + y,
                ),
    {
        let ghost wi = self.world_w as int;
        let ghost cxi = cx as int;
        let ghost cyi = cy as int;
        proof {
            assert(cxi * 8 + 8 <= wi && cyi * 8 + 8 <= self.world_h as int);
        }
        let w = self.world_w;
        let n_cells = self.fg_tiles.len();
        let n_cells_bg = self.bg_tiles.len();
        let mut fg: Vec<Tile> = Vec::new();
        let mut bg: Vec<Tile> = Vec::new();
        let mut y: usize = 0;
        while y < 8
            invariant
                y <= 8,
                fg@.len() == 8 * y,
                bg@.len() == 8 * y,
                forall|ax: int, ay: int|
                    0 <= ax < 8 && 0 <= ay < y ==> #[trigger] tile_at(fg@, 8, ax, ay) == tile_at(
                        self.fg_tiles@,
                        wi,
                        cxi * 8 + ax,
                        cyi * 8 + ay,
                    ),
                forall|ax: int, ay: int|
                    0 <= ax < 8 && 0 <= ay < y ==> #[trigger] tile_at(bg@, 8, ax, ay) == tile_at(
                        self.bg_tiles@,
                        wi,
                        cxi * 8 + ax,
                        cyi * 8 + ay,
                    ),
            decreases 8 - y,
        {
            let mut x: usize = 0;
            while x < 8
                invariant
                    x <= 8,
                    y < 8,
                    fg@.len() == 8 * y + x,
                    bg@.len() == 8 * y + x,
                    forall|ax: int, ay: int|
                        0 <= ax < 8 && 0 <= ay < 8 && 8 * ay + ax < fg@.len() ==> #[trigger] tile_at(
                            fg@,
                            8,
                            ax,
                            ay,
                        ) == tile_at(self.fg_tiles@, wi, cxi * 8 + ax, cyi * 8 + ay),
                    forall|ax: int, ay: int|
                        0 <= ax < 8 && 0 <= ay < 8 && 8 * ay + ax < bg@.len() ==> #[trigger] tile_at(
                            bg@,
                            8,
                            ax,
                            ay,
                        ) == tile_at(self.bg_tiles@, wi, cxi * 8 + ax, cyi * 8 + ay),
                decreases 8 - x,
            {
                let gx = x + (cx as usize) * 8;
                let gy = y + (cy as usize) * 8;
                proof {
                    assert(gx as int + (gy as int) * wi < self.fg_tiles@.len()) by (nonlinear_arith)
                        requires
                            0 <= gx as int,
                            (gx as int) < wi,
                            0 <= gy as int,
                            (gy as int) < self.world_h as int,
                            self.fg_tiles@.len() == wi * (self.world_h as int),
                    ;
                }
                let src = gx + gy * w;
                let ghost fg_prev = fg@;
                let ghost bg_prev = bg@;
                fg.push(self.fg_tiles[src]);
                bg.push(self.bg_tiles[src]);
                proof {
                    assert forall|ax: int, ay: int|
                        0 <= ax < 8 && 0 <= ay < 8 && 8 * ay + ax < fg@.len() implies #[trigger] tile_at(
                        fg@,
                        8,
                        ax,
                        ay,
                    ) == tile_at(self.fg_tiles@, wi, cxi * 8 + ax, cyi * 8 + ay) by {
                        if 8 * ay + ax < fg_prev.len() {
                            assert(tile_at(fg@, 8, ax, ay) == tile_at(fg_prev, 8, ax, ay));
                        } else {
                            assert(8 * ay + ax == 8 * (y as int) + x as int);
                            assert(ax == x as int && ay == y as int);
                            assert(tile_at(fg@, 8, ax, ay) == self.fg_tiles@[src as int]);
                        }
                    }
                    assert forall|ax: int, ay: int|
                        0 <= ax < 8 && 0 <= ay < 8 && 8 * ay + ax < bg@.len() implies #[trigger] tile_at(
                        bg@,
                        8,
                        ax,
                        ay,
                    ) == tile_at(self.bg_tiles@, wi, cxi * 8 + ax, cyi * 8 + ay) by {
                        if 8 * ay + ax < bg_prev.len() {
                            assert(tile_at(bg@, 8, ax, ay) == tile_at(bg_prev, 8, ax, ay));
                        } else {
                            assert(8 * ay + ax == 8 * (y as int) + x as int);
                            assert(ax == x as int && ay == y as int);
                            assert(tile_at(bg@, 8, ax, ay) == self.bg_tiles@[src as int]);
                        }
                    }
                }
                x = x + 1;
            }
            y = y + 1;
        }
        (fg, bg)
    }
}

} // verus!

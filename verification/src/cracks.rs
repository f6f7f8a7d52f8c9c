//! Break-progress overlay: one alpha tile per stage, laid side by side in
//! a strip. Stage `s` draws the tile's center plus the first `3 + s` steps
//! of each of the first `3 + s` crack walks, so every stage contains the
//! cracks of the stages before it.

use vstd::prelude::*;

verus! {

/// Number of break stages painted side by side.
pub const STAGES: u32 = 10;
/// Edge length in pixels of one stage tile.
pub const TILE_PX: u32 = 16;
/// Strip width in pixels: one tile per stage.
pub const STRIP_PX: u32 = 160;
/// Number of crack walks painted into the strip.
pub const WALKS: u32 = 12;
/// Seed of the generator the crack walks are drawn from.
pub const SEED: u32 = 0xC5AC;

/// Pixel position of pixel `(x, y)` of stage `stage` in the strip.
pub open spec fn strip_index(stage: int, x: int, y: int) -> int {
    y * STRIP_PX + stage * TILE_PX + x
}

/// How many walks, and how many steps of each, stage `stage` draws.
pub open spec fn reach(stage: int) -> int {
    3 + stage
}

/// Alpha value of the pixels stage `stage` covers.
pub open spec fn stage_alpha(stage: int) -> u8 {
    (150 + 10 * stage) as u8
}

/// Whether step `i` of walk `w` lies at `(x, y)` and stage `stage` draws it.
pub open spec fn drawn_step(walks: Seq<Seq<(u32, u32)>>, stage: int, w: int, i: int, x: int, y: int) -> bool {
    &&& 0 <= w < reach(stage)
    &&& w < walks.len()
    &&& 0 <= i < reach(stage)
    &&& i < walks[w].len()
    &&& walks[w][i].0 == x
    &&& walks[w][i].1 == y
}

/// Whether stage `stage` paints pixel `(x, y)`: the center always, and
/// every drawn step of every drawn walk.
pub open spec fn covered(walks: Seq<Seq<(u32, u32)>>, stage: int, x: int, y: int) -> bool {
    ||| (x == TILE_PX / 2 && y == TILE_PX / 2)
    ||| exists|w: int, i: int| #[trigger] drawn_step(walks, stage, w, i, x, y)
}

/// The alpha of pixel `(x, y)` in stage `stage`.
pub open spec fn spec_alpha(walks: Seq<Seq<(u32, u32)>>, stage: int, x: int, y: int) -> u8 {
    if covered(walks, stage, x, y) {
        stage_alpha(stage)
    } else {
        0
    }
}

/// Whether some step of one of the first `w` walks that stage `stage`
/// draws lies at `(x, y)`.
pub open spec fn covered_before(walks: Seq<Seq<(u32, u32)>>, stage: int, w: int, x: int, y: int) -> bool {
    exists|w2: int, i2: int| w2 < w && #[trigger] drawn_step(walks, stage, w2, i2, x, y)
}

/// Whether one of the first `i` steps of walk `w` that stage `stage`
/// draws lies at `(x, y)`.
pub open spec fn covered_in_walk(walks: Seq<Seq<(u32, u32)>>, stage: int, w: int, i: int, x: int, y: int) -> bool {
    exists|i2: int| i2 < i && #[trigger] drawn_step(walks, stage, w, i2, x, y)
}

/// Whether every step of every walk lies inside a tile.
pub open spec fn walks_in_tile(walks: Seq<Seq<(u32, u32)>>) -> bool {
    forall|w: int, i: int| 0 <= w < walks.len() && 0 <= i < walks[w].len() ==> {
        &&& (#[trigger] walks[w][i]).0 < TILE_PX
        &&& walks[w][i].1 < TILE_PX
    }
}

/// Alpha-only crack strip, row-major, `STRIP_PX` x `TILE_PX`; stage `s`
/// occupies columns `s * TILE_PX .. (s + 1) * TILE_PX`.
pub struct CrackStrip {
    /// One alpha byte per pixel.
    pub alpha: Vec<u8>,
}

/// Paints the strip from the crack walks, each a list of in-tile pixel
/// steps drawn outward from the tile's center.
pub fn generate(walks: &Vec<Vec<(u32, u32)>>) -> (r: CrackStrip)
    requires
        walks_in_tile(walks@.map_values(|w: Vec<(u32, u32)>| w@)),
    ensures
        r.alpha@.len() == STRIP_PX * TILE_PX,
        forall|stage: int, x: int, y: int| 0 <= stage < STAGES && 0 <= x < TILE_PX && 0 <= y < TILE_PX
            ==> #[trigger] r.alpha@[strip_index(stage, x, y)] == spec_alpha(walks@.map_values(|w: Vec<(u32, u32)>| w@), stage, x, y),
{
    let ghost ws = walks@.map_values(|w: Vec<(u32, u32)>| w@);
    let mut alpha: Vec<u8> = Vec::new();
    let mut p: usize = 0;
    while p < 2560
        invariant
            p <= 2560,
            alpha@.len() == p,
            forall|i: int| 0 <= i < p ==> #[trigger] alpha@[i] == 0,
        decreases 2560 - p,
    {
        alpha.push(0);
        p = p + 1;
    }
    let center: u32 = TILE_PX / 2;
    let mut stage: u32 = 0;
    while stage < STAGES
        invariant
            stage <= STAGES,
            ws == walks@.map_values(|w: Vec<(u32, u32)>| w@),
            walks_in_tile(ws),
            alpha@.len() == 2560,
            forall|s: int, x: int, y: int| 0 <= s < STAGES && 0 <= x < TILE_PX && 0 <= y < TILE_PX
                ==> #[trigger] alpha@[strip_index(s, x, y)] == (if s < stage { spec_alpha(ws, s, x, y) } else { 0u8 }),
        decreases STAGES - stage,
    {
        paint_stage(&mut alpha, walks, stage, Ghost(ws));
        stage = stage + 1;
    }
    CrackStrip { alpha }
}

proof fn lemma_strip_index(s: int, x: int, y: int, s2: int, x2: int, y2: int)
    requires
        0 <= s < STAGES,
        0 <= x < TILE_PX,
        0 <= y < TILE_PX,
        0 <= s2 < STAGES,
        0 <= x2 < TILE_PX,
        0 <= y2 < TILE_PX,
    ensures
        0 <= strip_index(s, x, y) < 2560,
        strip_index(s, x, y) == strip_index(s2, x2, y2) ==> s == s2 && x == x2 && y == y2,
{
}

fn set_pixel(alpha: &mut Vec<u8>, stage: u32, x: u32, y: u32, value: u8)
    requires
        old(alpha)@.len() == 2560,
        stage < STAGES,
        x < TILE_PX,
        y < TILE_PX,
    ensures
        final(alpha)@ == old(alpha)@.update(strip_index(stage as int, x as int, y as int), value),
{
    proof {
        lemma_strip_index(stage as int, x as int, y as int, 0, 0, 0);
    }
    alpha.set((y * STRIP_PX + stage * TILE_PX + x) as usize, value);
}

fn paint_stage(alpha: &mut Vec<u8>, walks: &Vec<Vec<(u32, u32)>>, stage: u32, Ghost(ws): Ghost<Seq<Seq<(u32, u32)>>>)
    requires
        stage < STAGES,
        ws == walks@.map_values(|w: Vec<(u32, u32)>| w@),
        walks_in_tile(ws),
        old(alpha)@.len() == 2560,
        forall|s: int, x: int, y: int| 0 <= s < STAGES && 0 <= x < TILE_PX && 0 <= y < TILE_PX
            ==> #[trigger] old(alpha)@[strip_index(s, x, y)] == (if s < stage { spec_alpha(ws, s, x, y) } else { 0u8 }),
    ensures
        final(alpha)@.len() == 2560,
        forall|s: int, x: int, y: int| 0 <= s < STAGES && 0 <= x < TILE_PX && 0 <= y < TILE_PX
            ==> #[trigger] final(alpha)@[strip_index(s, x, y)] == (if s <= stage { spec_alpha(ws, s, x, y) } else { 0u8 }),
{
    let value: u8 = (150 + 10 * stage) as u8;
    let reach: usize = (3 + stage) as usize;
    let center: u32 = TILE_PX / 2;
    set_pixel(alpha, stage, center, center, value);
    let n_walks: usize = if walks.len() < reach { walks.len() } else { reach };
    let mut w: usize = 0;
    while w < n_walks
        invariant
            stage < STAGES,
            reach == 3 + stage,
            value == stage_alpha(stage as int),
            n_walks <= reach,
            n_walks <= walks@.len(),
            n_walks == reach || n_walks == walks@.len(),
            w <= n_walks,
            ws == walks@.map_values(|v: Vec<(u32, u32)>| v@),
            walks_in_tile(ws),
            alpha@.len() == 2560,
            forall|s: int, x: int, y: int| 0 <= s < STAGES && 0 <= x < TILE_PX && 0 <= y < TILE_PX
                ==> #[trigger] alpha@[strip_index(s, x, y)] == (if s < stage {
                    spec_alpha(ws, s, x, y)
                } else if s == stage {
                    if (x == TILE_PX / 2 && y == TILE_PX / 2) || covered_before(ws, s, w as int, x, y) {
                        value
                    } else {
                        0u8
                    }
                } else {
                    0u8
                }),
        decreases n_walks - w,
    {
        let steps = &walks[w];
        let n_steps: usize = if steps.len() < reach { steps.len() } else { reach };
        let mut i: usize = 0;
        while i < n_steps
            invariant
                stage < STAGES,
                reach == 3 + stage,
                value == stage_alpha(stage as int),
                w < n_walks,
                n_walks <= reach,
                n_walks <= walks@.len(),
                n_steps <= reach,
                n_steps <= steps@.len(),
                n_steps == reach || n_steps == steps@.len(),
                i <= n_steps,
                steps@ == ws[w as int],
                ws == walks@.map_values(|v: Vec<(u32, u32)>| v@),
                walks_in_tile(ws),
                alpha@.len() == 2560,
                forall|s: int, x: int, y: int| 0 <= s < STAGES && 0 <= x < TILE_PX && 0 <= y < TILE_PX
                    ==> #[trigger] alpha@[strip_index(s, x, y)] == (if s < stage {
                        spec_alpha(ws, s, x, y)
                    } else if s == stage {
                        if (x == TILE_PX / 2 && y == TILE_PX / 2)
                            || covered_before(ws, s, w as int, x, y)
                            || covered_in_walk(ws, s, w as int, i as int, x, y) {
                            value
                        } else {
                            0u8
                        }
                    } else {
                        0u8
                    }),
            decreases n_steps - i,
        {
            let (x, y) = steps[i];
            assert(ws[w as int][i as int] == (x, y));
            assert(x < TILE_PX && y < TILE_PX);
            let ghost before = alpha@;
            set_pixel(alpha, stage, x, y, value);
            proof {
                assert(drawn_step(ws, stage as int, w as int, i as int, x as int, y as int));
                assert forall|s: int, px: int, py: int| 0 <= s < STAGES && 0 <= px < TILE_PX && 0 <= py < TILE_PX
                    implies #[trigger] alpha@[strip_index(s, px, py)] == (if s < stage {
                        spec_alpha(ws, s, px, py)
                    } else if s == stage {
                        if (px == TILE_PX / 2 && py == TILE_PX / 2)
                            || covered_before(ws, s, w as int, px, py)
                            || covered_in_walk(ws, s, w as int, i + 1, px, py) {
                            value
                        } else {
                            0u8
                        }
                    } else {
                        0u8
                    }) by {
                    lemma_strip_index(s, px, py, stage as int, x as int, y as int);
                    if s == stage && (px, py) != (x as int, y as int) {
                        if covered_in_walk(ws, s, w as int, i + 1, px, py) {
                            let i2 = choose|i2: int| i2 < i + 1 && #[trigger] drawn_step(ws, s, w as int, i2, px, py);
                            assert(i2 != i);
                            assert(covered_in_walk(ws, s, w as int, i as int, px, py));
                        }
                    }
                    if s == stage && (px, py) == (x as int, y as int) {
                        assert(covered_in_walk(ws, s, w as int, i + 1, px, py));
                    }
                }
            }
            i = i + 1;
        }
        proof {
            assert forall|px: int, py: int| 0 <= px < TILE_PX && 0 <= py < TILE_PX
                implies #[trigger] covered_before(ws, stage as int, w + 1, px, py)
                    == (covered_before(ws, stage as int, w as int, px, py) || covered_in_walk(ws, stage as int, w as int, i as int, px, py)) by {
                if covered_before(ws, stage as int, w + 1, px, py) {
                    let (w2, i2) = choose|w2: int, i2: int| w2 < w + 1 && #[trigger] drawn_step(ws, stage as int, w2, i2, px, py);
                    if w2 != w {
                        assert(covered_before(ws, stage as int, w as int, px, py));
                    } else {
                        assert(covered_in_walk(ws, stage as int, w as int, i as int, px, py));
                    }
                }
                if covered_before(ws, stage as int, w as int, px, py) {
                    let (w2, i2) = choose|w2: int, i2: int| w2 < w && #[trigger] drawn_step(ws, stage as int, w2, i2, px, py);
                    assert(covered_before(ws, stage as int, w + 1, px, py));
                }
                if covered_in_walk(ws, stage as int, w as int, i as int, px, py) {
                    let i2 = choose|i2: int| i2 < i && #[trigger] drawn_step(ws, stage as int, w as int, i2, px, py);
                    assert(drawn_step(ws, stage as int, w as int, i2, px, py));
                    assert(covered_before(ws, stage as int, w + 1, px, py));
                }
            }
        }
        w = w + 1;
    }
    proof {
        assert forall|px: int, py: int| 0 <= px < TILE_PX && 0 <= py < TILE_PX
            implies #[trigger] covered(ws, stage as int, px, py)
                == ((px == TILE_PX / 2 && py == TILE_PX / 2) || covered_before(ws, stage as int, w as int, px, py)) by {
            if exists|w2: int, i2: int| #[trigger] drawn_step(ws, stage as int, w2, i2, px, py) {
                let (w2, i2) = choose|w2: int, i2: int| #[trigger] drawn_step(ws, stage as int, w2, i2, px, py);
                assert(w2 < w);
                assert(covered_before(ws, stage as int, w as int, px, py));
            }
        }
    }
}

impl CrackStrip {
    /// Alpha of pixel `(x, y)` inside stage `stage`.
    pub fn at(&self, stage: u32, x: u32, y: u32) -> (r: u8)
        requires
            self.alpha@.len() == STRIP_PX * TILE_PX,
            stage < STAGES,
            x < TILE_PX,
            y < TILE_PX,
        ensures
            r == self.alpha@[strip_index(stage as int, x as int, y as int)],
    {
        proof {
            lemma_strip_index(stage as int, x as int, y as int, 0, 0, 0);
        }
        self.alpha[(y * STRIP_PX + stage * TILE_PX + x) as usize]
    }
}

/// Stages only add pixels: every pixel a stage paints is painted by every
/// later stage too, and at least as opaque.
pub proof fn law_stages_only_add(walks: Seq<Seq<(u32, u32)>>, stage: int, x: int, y: int)
    requires
        1 <= stage < STAGES,
    ensures
        spec_alpha(walks, stage, x, y) >= spec_alpha(walks, stage - 1, x, y),
        covered(walks, stage - 1, x, y) ==> covered(walks, stage, x, y),
{
    if covered(walks, stage - 1, x, y) && !(x == TILE_PX / 2 && y == TILE_PX / 2) {
        let (w, i) = choose|w: int, i: int| #[trigger] drawn_step(walks, stage - 1, w, i, x, y);
        assert(drawn_step(walks, stage, w, i, x, y));
    }
}

/// Every stage paints the tile's center.
pub proof fn law_center_always_painted(walks: Seq<Seq<(u32, u32)>>, stage: int)
    requires
        0 <= stage < STAGES,
    ensures
        spec_alpha(walks, stage, (TILE_PX / 2) as int, (TILE_PX / 2) as int) == stage_alpha(stage),
        stage_alpha(stage) > 0,
{
}

} // verus!

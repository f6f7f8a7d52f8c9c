use ox_core::cracks::{generate, CrackStrip, SEED, STAGES, STRIP_PX, TILE_PX, WALKS};
use ox_core::rng::Lcg;

fn unit(rng: &mut Lcg) -> f32 {
    rng.next_u32() as f32 / u32::MAX as f32
}

fn walk(rng: &mut Lcg) -> Vec<(u32, u32)> {
    let angle = unit(rng) * std::f32::consts::TAU;
    let (dy, dx) = angle.sin_cos();
    let mut x = (TILE_PX / 2) as f32;
    let mut y = (TILE_PX / 2) as f32;
    let mut steps = Vec::new();
    for _ in 0..TILE_PX {
        let sideways = unit(rng) < 0.35;
        let (sx, sy) = if sideways { (-dy, dx) } else { (dx, dy) };
        x += sx;
        y += sy;
        if x < 0.0 || y < 0.0 || x >= TILE_PX as f32 || y >= TILE_PX as f32 {
            break;
        }
        steps.push((x as u32, y as u32));
    }
    steps
}

fn strip() -> CrackStrip {
    let mut rng = Lcg::new(SEED);
    let walks: Vec<Vec<(u32, u32)>> = (0..WALKS).map(|_| walk(&mut rng)).collect();
    generate(&walks)
}

fn count(strip: &CrackStrip, stage: u32) -> usize {
    (0..TILE_PX)
        .flat_map(|y| (0..TILE_PX).map(move |x| (x, y)))
        .filter(|(x, y)| strip.at(stage, *x, *y) > 0)
        .count()
}

#[test]
fn strip_is_deterministic_and_sized() {
    let a = strip();
    let b = strip();
    assert_eq!(a.alpha.len(), (STRIP_PX * TILE_PX) as usize);
    assert_eq!(a.alpha, b.alpha);
}

#[test]
fn stages_only_add_pixels() {
    let strip = strip();
    for stage in 1..STAGES {
        for y in 0..TILE_PX {
            for x in 0..TILE_PX {
                assert!(strip.at(stage, x, y) >= strip.at(stage - 1, x, y));
            }
        }
        assert!(count(&strip, stage) >= count(&strip, stage - 1));
    }
    assert!(count(&strip, STAGES - 1) > count(&strip, 0));
}

#[test]
fn cracks_start_at_the_center() {
    let strip = strip();
    let c = TILE_PX / 2;
    assert!(strip.at(0, c, c) > 0);
}

#[test]
fn last_stage_reaches_an_edge() {
    let strip = strip();
    let last = STAGES - 1;
    let edge = (0..TILE_PX).any(|i| {
        strip.at(last, i, 0) > 0
            || strip.at(last, i, TILE_PX - 1) > 0
            || strip.at(last, 0, i) > 0
            || strip.at(last, TILE_PX - 1, i) > 0
    });
    assert!(edge);
}

#[test]
fn no_walks_paint_only_the_centers() {
    let strip = generate(&vec![]);
    for stage in 0..STAGES {
        assert_eq!(strip.at(stage, 8, 8), (150 + 10 * stage) as u8);
        assert_eq!(count(&strip, stage), 1);
    }
}

#[test]
fn stage_draws_three_plus_stage_steps_of_three_plus_stage_walks() {
    let line: Vec<(u32, u32)> = (0..10).map(|i| (i, 0)).collect();
    let walks = vec![line.clone(), line.clone(), line.clone(), vec![(0, 5)]];
    let strip = generate(&walks);
    assert_eq!(strip.at(0, 2, 0), 150);
    assert_eq!(strip.at(0, 3, 0), 0);
    assert_eq!(strip.at(0, 0, 5), 0);
    assert_eq!(strip.at(1, 3, 0), 160);
    assert_eq!(strip.at(1, 0, 5), 160);
    assert_eq!(strip.at(9, 9, 0), 240);
}

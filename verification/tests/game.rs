use ox_core::blocks::{AIR, COBBLE, GLASS, GRASS, STONE};
use ox_core::game::{find_slot, handle, Action, Effect, Hit};
use ox_core::generation::terrain::ColumnInfo;
use ox_core::generation::{ChunkInputs, CHUNK_VOL};
use ox_core::world::World;

fn flat(_seed: i32, _cx: i32, _cz: i32) -> ChunkInputs {
    ChunkInputs {
        columns: vec![ColumnInfo { h: 30, tree: false, sandy: false, snowy: false }; 256],
        cave: vec![false; CHUNK_VOL],
        cave_min_y: 2,
        cave_skin: 4,
        cave_top_cap: 60,
        trees: vec![],
    }
}

fn nobody(_x: i32, _y: i32, _z: i32) -> bool {
    false
}

fn top_hit() -> Hit {
    Hit { x: 4, y: 30, z: 4, block: GRASS, face: [0, 1, 0] }
}

#[test]
fn toggle_fly_flips_flight_and_leaves_the_rest() {
    let mut w = World::new(1);
    let (mut sel, mut fly) = (3usize, false);
    let r = handle(&mut w, &mut sel, &mut fly, Action::ToggleFly, None, &nobody, &flat);
    assert!(r.is_none());
    assert!(fly);
    assert_eq!(sel, 3);
}

#[test]
fn select_clamps_to_the_last_slot() {
    let mut w = World::new(1);
    let (mut sel, mut fly) = (0usize, false);
    let _ = handle(&mut w, &mut sel, &mut fly, Action::Select(4), None, &nobody, &flat);
    assert_eq!(sel, 4);
    let _ = handle(&mut w, &mut sel, &mut fly, Action::Select(40), None, &nobody, &flat);
    assert_eq!(sel, 8);
}

#[test]
fn pick_selects_the_slot_of_the_targeted_block() {
    let mut w = World::new(1);
    let (mut sel, mut fly) = (0usize, false);
    let cobble = Hit { block: COBBLE, ..top_hit() };
    let _ = handle(&mut w, &mut sel, &mut fly, Action::Pick, Some(cobble), &nobody, &flat);
    assert_eq!(sel, 7);
    let water = Hit { block: 12, ..top_hit() };
    let _ = handle(&mut w, &mut sel, &mut fly, Action::Pick, Some(water), &nobody, &flat);
    assert_eq!(sel, 7);
    let _ = handle(&mut w, &mut sel, &mut fly, Action::Pick, None, &nobody, &flat);
    assert_eq!(sel, 7);
    assert_eq!(find_slot(GLASS), Some(8));
    assert_eq!(find_slot(AIR), None);
}

#[test]
fn place_puts_the_selected_block_across_the_face() {
    let mut w = World::new(1);
    w.ensure_data(0, 0, &flat);
    let (mut sel, mut fly) = (2usize, false);
    let r = handle(&mut w, &mut sel, &mut fly, Action::Place, Some(top_hit()), &nobody, &flat);
    let (effect, affected) = r.expect("placed");
    assert_eq!(effect, Effect::Placed { cell: [4, 31, 4], block: STONE });
    assert_eq!(affected, vec![(0, 0)]);
    assert_eq!(w.get_block(4, 31, 4), STONE);
}

#[test]
fn place_refuses_occupied_cells_the_player_and_the_height_limit() {
    let mut w = World::new(1);
    w.ensure_data(0, 0, &flat);
    let (mut sel, mut fly) = (2usize, false);
    let into_ground = Hit { face: [0, -1, 0], ..top_hit() };
    assert!(handle(&mut w, &mut sel, &mut fly, Action::Place, Some(into_ground), &nobody, &flat).is_none());
    let body = |x: i32, y: i32, z: i32| x == 4 && y == 31 && z == 4;
    assert!(handle(&mut w, &mut sel, &mut fly, Action::Place, Some(top_hit()), &body, &flat).is_none());
    assert_eq!(w.get_block(4, 31, 4), AIR);
    let roof = Hit { y: 63, ..top_hit() };
    assert!(handle(&mut w, &mut sel, &mut fly, Action::Place, Some(roof), &nobody, &flat).is_none());
    assert!(handle(&mut w, &mut sel, &mut fly, Action::Place, None, &nobody, &flat).is_none());
}

//! Discrete gameplay: the actions input handling queues, the effects the
//! simulation reports, and how an action changes the world, the selected
//! hotbar slot and the flight mode.

use vstd::prelude::*;
use crate::blocks::{AIR, BlockId, COBBLE, DIRT, GLASS, GRASS, HOTBAR, LEAVES, LOG, PLANK, SAND, STONE};
use crate::generation::ChunkInputs;
use crate::world::{HEIGHT, World, affected_chunks, block_at, chunk_of, edited, local_of, source_ok};

verus! {

/// A discrete gameplay action produced by input handling.
#[derive(Clone, Copy, Debug, PartialEq, Eq, Structural)]
pub enum Action {
    /// Place the selected block against the targeted face.
    Place,
    /// Select the hotbar slot holding the targeted block.
    Pick,
    /// Select a hotbar slot by index.
    Select(usize),
    /// Toggle flight mode.
    ToggleFly,
}

/// A presentation event the simulation reports and the shell drains for
/// arm swing, particles and sound.
#[derive(Clone, Copy, Debug, PartialEq, Eq)]
pub enum Effect {
    /// A block left the world.
    Broke {
        /// Cell that held the block.
        cell: [i32; 3],
        /// Block that was removed.
        block: BlockId,
    },
    /// A block entered the world.
    Placed {
        /// Cell that now holds the block.
        cell: [i32; 3],
        /// Block that was placed.
        block: BlockId,
    },
    /// One dig hit landed on a block still standing.
    Dig {
        /// Cell under attack.
        cell: [i32; 3],
        /// Block under attack.
        block: BlockId,
    },
}

/// The cell a view ray hit: its coordinates, its block, and the outward
/// normal of the face the ray entered through.
#[derive(Clone, Copy, Debug)]
pub struct Hit {
    /// Cell x.
    pub x: i32,
    /// Cell y.
    pub y: i32,
    /// Cell z.
    pub z: i32,
    /// Block in the cell.
    pub block: BlockId,
    /// Unit normal of the entered face.
    pub face: [i32; 3],
}

/// Number of hotbar slots.
pub const HOTBAR_SLOTS: usize = 9;

/// The hotbar, slot by slot.
pub open spec fn hotbar() -> Seq<BlockId> {
    seq![GRASS, DIRT, STONE, SAND, LOG, LEAVES, PLANK, COBBLE, GLASS]
}

/// The first hotbar slot at or after `i` holding `block`.
pub open spec fn slot_from(block: BlockId, i: int) -> Option<usize>
    decreases HOTBAR_SLOTS - i,
{
    if i < 0 || i >= HOTBAR_SLOTS {
        None
    } else if hotbar()[i] == block {
        Some(i as usize)
    } else {
        slot_from(block, i + 1)
    }
}

/// The first hotbar slot holding `block`, if any holds it.
pub open spec fn hotbar_slot(block: BlockId) -> Option<usize> {
    slot_from(block, 0)
}

/// Whether a hit's cell has a neighbor across its face within the
/// coordinate range, and its face is a unit normal component-wise.
pub open spec fn hit_ok(h: Hit) -> bool {
    &&& i32::MIN < h.x < i32::MAX
    &&& i32::MIN < h.y < i32::MAX
    &&& i32::MIN < h.z < i32::MAX
    &&& forall|k: int| 0 <= k < 3 ==> -1 <= #[trigger] h.face[k] <= 1
}

/// The cell a placement against `h` fills: the neighbor across the entered face.
pub open spec fn place_cell(h: Hit) -> (int, int, int) {
    (h.x + h.face[0], h.y + h.face[1], h.z + h.face[2])
}

/// Whether `e` reports `block` placed at `(x, y, z)`.
pub open spec fn placed_effect(e: Effect, x: int, y: int, z: int, block: BlockId) -> bool {
    &&& e is Placed
    &&& e->Placed_cell@ == seq![x as i32, y as i32, z as i32]
    &&& e->Placed_block == block
}

/// The slot an explicit selection of slot `i` ends on.
pub open spec fn clamp_slot(i: usize) -> usize {
    if i < HOTBAR_SLOTS {
        i
    } else {
        (HOTBAR_SLOTS - 1) as usize
    }
}

/// The hotbar slot holding `block`, searched in slot order.
pub fn find_slot(block: BlockId) -> (r: Option<usize>)
    ensures
        r == hotbar_slot(block),
{
    proof {
        assert(HOTBAR@ =~= hotbar());
    }
    let mut i: usize = 0;
    while i < HOTBAR_SLOTS
        invariant
            i <= HOTBAR_SLOTS,
            HOTBAR@ == hotbar(),
            hotbar_slot(block) == slot_from(block, i as int),
        decreases HOTBAR_SLOTS - i,
    {
        if HOTBAR[i] == block {
            return Some(i);
        }
        i = i + 1;
    }
    None
}

/// Applies one action: `ToggleFly` flips `flying`; `Select` picks a slot,
/// clamped to the hotbar; `Pick` selects the slot holding the targeted
/// block, when one does; `Place` puts the selected block into the cell
/// across the targeted face, when that cell lies in the height range,
/// holds air and `overlaps_player` does not report the player's body in
/// it. A placement reports its effect and the chunks whose meshes changed.
pub fn handle<F: Fn(i32, i32, i32) -> ChunkInputs, O: Fn(i32, i32, i32) -> bool>(
    world: &mut World,
    selected: &mut usize,
    flying: &mut bool,
    action: Action,
    target: Option<Hit>,
    overlaps_player: &O,
    source: &F,
) -> (r: Option<(Effect, Vec<(i32, i32)>)>)
    requires
        old(world).wf(),
        *old(selected) < HOTBAR_SLOTS,
        source_ok(*source),
        forall|x: i32, y: i32, z: i32| #[trigger] overlaps_player.requires((x, y, z)),
        target matches Some(h) ==> hit_ok(h),
    ensures
        final(world).wf(),
        final(world).seed() == old(world).seed(),
        final(world).stages() == old(world).stages(),
        *final(selected) < HOTBAR_SLOTS,
        action !is Place ==> r is None && final(world).chunks() == old(world).chunks(),
        action !is ToggleFly ==> *final(flying) == *old(flying),
        action !is Select && action !is Pick ==> *final(selected) == *old(selected),
        action is ToggleFly ==> *final(flying) == !*old(flying),
        action matches Action::Select(i) ==> *final(selected) == clamp_slot(i),
        action is Pick ==> *final(selected) == match target {
            Some(h) => match hotbar_slot(h.block) {
                Some(j) => j,
                None => *old(selected),
            },
            None => *old(selected),
        },
        action is Place ==> match target {
            None => r is None && final(world).chunks() == old(world).chunks(),
            Some(h) => {
                let (tx, ty, tz) = place_cell(h);
                let free = 0 <= ty < HEIGHT && block_at(old(world).chunks(), tx, ty, tz) == AIR;
                &&& !free ==> r is None && final(world).chunks() == old(world).chunks()
                &&& free && r is None ==> overlaps_player.ensures((tx as i32, ty as i32, tz as i32), true)
                    && final(world).chunks() == old(world).chunks()
                &&& r is Some ==> {
                    &&& free
                    &&& overlaps_player.ensures((tx as i32, ty as i32, tz as i32), false)
                    &&& placed_effect((r->0).0, tx, ty, tz, hotbar()[*old(selected) as int])
                    &&& (r->0).1@ == affected_chunks(chunk_of(tx), chunk_of(tz), local_of(tx), local_of(tz))
                    &&& edited(
                        old(world).chunks(),
                        final(world).chunks(),
                        *source,
                        old(world).seed(),
                        old(world).stages(),
                        tx,
                        ty,
                        tz,
                        hotbar()[*old(selected) as int],
                    )
                }
            },
        },
{
    proof {
        assert(HOTBAR@ =~= hotbar());
    }
    match action {
        Action::ToggleFly => {
            *flying = !*flying;
            None
        },
        Action::Select(i) => {
            *selected = if i < HOTBAR_SLOTS { i } else { HOTBAR_SLOTS - 1 };
            None
        },
        Action::Pick => {
            if let Some(hit) = target {
                if let Some(i) = find_slot(hit.block) {
                    proof {
                        lemma_slot_from_in_range(hit.block, 0);
                    }
                    *selected = i;
                }
            }
            None
        },
        Action::Place => {
            match target {
                None => None,
                Some(hit) => {
                    proof {
                        assert(-1 <= hit.face[0] <= 1);
                        assert(-1 <= hit.face[1] <= 1);
                        assert(-1 <= hit.face[2] <= 1);
                    }
                    let tx = hit.x + hit.face[0];
                    let ty = hit.y + hit.face[1];
                    let tz = hit.z + hit.face[2];
                    if 0 <= ty && ty < HEIGHT && world.get_block(tx, ty, tz) == AIR && !overlaps_player(tx, ty, tz) {
                        let block = HOTBAR[*selected];
                        let affected = world.set_block(tx, ty, tz, block, source);
                        Some((Effect::Placed { cell: [tx, ty, tz], block }, affected))
                    } else {
                        None
                    }
                },
            }
        },
    }
}

/// A slot found by the search lies in the hotbar.
proof fn lemma_slot_from_in_range(block: BlockId, i: int)
    ensures
        slot_from(block, i) matches Some(j) ==> i <= j < HOTBAR_SLOTS && hotbar()[j as int] == block,
    decreases HOTBAR_SLOTS - i,
{
    if 0 <= i < HOTBAR_SLOTS && hotbar()[i] != block {
        lemma_slot_from_in_range(block, i + 1);
    }
}

} // verus!

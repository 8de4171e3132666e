use vstd::prelude::*;

use crate::blocks::BlockType;
use crate::pos::IVec3;
use crate::protocol::ClientMessage;

verus! {

/// Something a player can hold.
#[derive(PartialEq, Eq, Structural, Clone, Copy, Debug)]
pub enum Item {
    Block { block: BlockType, stackable: bool },
    Misc { item: u64, stackable: bool },
}

/// One slot of the hotbar, empty or holding an item.
#[derive(PartialEq, Eq, Structural, Clone, Copy, Debug)]
pub struct ItemSlot(pub Option<Item>);

/// The item in the player's hand, if any.
#[derive(PartialEq, Eq, Structural, Clone, Copy, Debug)]
pub struct HoldingItem(pub Option<Item>);

/// Number of slots of the hotbar.
pub const HOTBAR_SLOTS: usize = 9;

/// The nine item slots at the bottom of the screen and which one is
/// selected.
pub struct Hotbar {
    slots: [ItemSlot; 9],
    selected: u8,
}

impl Hotbar {
    /// The selected slot is one of the nine.
    pub closed spec fn wf(&self) -> bool {
        self.selected < 9
    }

    /// The index of the selected slot.
    pub closed spec fn selected_slot(&self) -> int {
        self.selected as int
    }

    /// The content of slot `i`.
    pub closed spec fn slot(&self, i: int) -> ItemSlot {
        self.slots@[i]
    }

    /// An empty hotbar with the second slot selected.
    pub fn default() -> (h: Self)
        ensures
            h.wf(),
            h.selected_slot() == 1,
            forall|i: int| 0 <= i < 9 ==> h.slot(i) == ItemSlot(None),
    {
        Hotbar { slots: [ItemSlot(None); 9], selected: 1 }
    }

    /// A hotbar holding `slots`, with the second slot selected.
    pub fn with_slots(slots: [ItemSlot; 9]) -> (h: Self)
        ensures
            h.wf(),
            h.selected_slot() == 1,
            forall|i: int| 0 <= i < 9 ==> h.slot(i) == slots@[i],
    {
        Hotbar { slots, selected: 1 }
    }

    /// The content of slot `i`.
    pub fn get_slot(&self, i: usize) -> (s: ItemSlot)
        requires
            i < 9,
        ensures
            s == self.slot(i as int),
    {
        self.slots[i]
    }

    /// The index of the selected slot.
    pub fn selected(&self) -> (i: u8)
        ensures
            i == self.selected_slot(),
    {
        self.selected
    }
}

/// Selects a slot with the number keys: pressing key 1, 2, 3 or 4 selects
/// the first, second, third or fourth slot; when several were pressed in the
/// same frame the highest one wins, and without a press nothing changes.
pub fn hotbar_prototype(hotbar: &mut Hotbar, pressed: [bool; 4])
    requires
        old(hotbar).wf(),
    ensures
        final(hotbar).wf(),
        final(hotbar).selected_slot() == (if pressed@[3] {
            3
        } else if pressed@[2] {
            2
        } else if pressed@[1] {
            1
        } else if pressed@[0] {
            0
        } else {
            old(hotbar).selected_slot()
        }),
        forall|i: int| 0 <= i < 9 ==> final(hotbar).slot(i) == old(hotbar).slot(i),
{
    if pressed[0] {
        hotbar.selected = 0;
    }
    if pressed[1] {
        hotbar.selected = 1;
    }
    if pressed[2] {
        hotbar.selected = 2;
    }
    if pressed[3] {
        hotbar.selected = 3;
    }
}

/// Puts the content of the selected slot in the player's hand.
pub fn holding_item(hotbar: &Hotbar, holding: &mut HoldingItem)
    requires
        hotbar.wf(),
    ensures
        final(holding).0 == hotbar.slot(hotbar.selected_slot()).0,
{
    holding.0 = hotbar.slots[hotbar.selected as usize].0;
}

/// What the ray under the cursor hit, reduced to integers: the hit point
/// with each coordinate rounded down, for each axis whether the surface
/// normal points to the negative side, the normal with each coordinate
/// truncated toward zero, and whether the hit lies within reach (farther
/// than one block and no farther than the reach).
#[derive(Clone, Copy, Debug)]
pub struct RayHit {
    pub cell: IVec3,
    pub normal_negative: [bool; 3],
    pub normal: IVec3,
    pub in_reach: bool,
}

/// One less when the flag is set.
pub open spec fn back_step(negative: bool) -> int {
    if negative {
        -1
    } else {
        0
    }
}

/// The cell a block is placed into: the cell in front of the hit face.
pub open spec fn place_target(h: RayHit) -> IVec3 {
    IVec3 {
        x: (h.cell.x + back_step(h.normal_negative@[0]) - 1) as i32,
        y: (h.cell.y + back_step(h.normal_negative@[1]) - 1) as i32,
        z: (h.cell.z + back_step(h.normal_negative@[2]) - 1) as i32,
    }
}

/// The cell a block is broken in: the cell behind the hit face.
pub open spec fn break_target(h: RayHit) -> IVec3 {
    IVec3 {
        x: (h.cell.x - 1 - h.normal.x) as i32,
        y: (h.cell.y - 1 - h.normal.y) as i32,
        z: (h.cell.z - 1 - h.normal.z) as i32,
    }
}

/// Both target cells of the hit have coordinates that fit an `i32`.
pub open spec fn hit_in_range(h: RayHit) -> bool {
    &&& i32::MIN + 2 <= h.cell.x && i32::MIN + 2 <= h.cell.y && i32::MIN + 2 <= h.cell.z
    &&& i32::MIN <= h.cell.x - 1 - h.normal.x <= i32::MAX
    &&& i32::MIN <= h.cell.y - 1 - h.normal.y <= i32::MAX
    &&& i32::MIN <= h.cell.z - 1 - h.normal.z <= i32::MAX
}

/// The message one hit gives: with the right button, a block placed in
/// front of the face when the hit is within reach and the hand holds a
/// block; otherwise with the left button, the block behind the face broken,
/// at any distance.
pub open spec fn hit_messages(h: RayHit, right: bool, left: bool, holding: HoldingItem) -> Seq<ClientMessage> {
    if right {
        match holding.0 {
            Some(Item::Block { block, .. }) => if h.in_reach {
                seq![ClientMessage::PlaceBlock { pos: place_target(h), block }]
            } else {
                seq![]
            },
            _ => seq![],
        }
    } else if left {
        seq![ClientMessage::BreakBlock(break_target(h))]
    } else {
        seq![]
    }
}

/// The messages for a list of hits, in order.
pub open spec fn interaction_messages(hs: Seq<RayHit>, right: bool, left: bool, holding: HoldingItem) -> Seq<ClientMessage>
    decreases hs.len(),
{
    if hs.len() == 0 {
        seq![]
    } else {
        interaction_messages(hs.drop_last(), right, left, holding) + hit_messages(
            hs.last(),
            right,
            left,
            holding,
        )
    }
}

/// Turns this frame's clicks on the world into block messages for the
/// server: a right click places the held block in front of each hit face
/// within reach, a left click breaks the block behind each hit face.
pub fn intersection(hits: &Vec<RayHit>, right: bool, left: bool, holding: &HoldingItem) -> (msgs: Vec<ClientMessage>)
    requires
        forall|i: int| 0 <= i < hits@.len() ==> hit_in_range(#[trigger] hits@[i]),
    ensures
        msgs@ == interaction_messages(hits@, right, left, *holding),
{
    let mut msgs: Vec<ClientMessage> = Vec::new();
    let mut k: usize = 0;
    while k < hits.len()
        invariant
            k <= hits@.len(),
            forall|i: int| 0 <= i < hits@.len() ==> hit_in_range(#[trigger] hits@[i]),
            msgs@ == interaction_messages(hits@.take(k as int), right, left, *holding),
        decreases hits@.len() - k,
    {
        let h = hits[k];
        assert(hit_in_range(hits@[k as int]));
        assert(hits@.take(k + 1).drop_last() =~= hits@.take(k as int));
        assert(hits@.take(k + 1).last() == h);
        let ghost before = msgs@;
        if right {
            if h.in_reach {
                match holding.0 {
                    Some(Item::Block { block, .. }) => {
                        let dx: i32 = if h.normal_negative[0] { -1 } else { 0 };
                        let dy: i32 = if h.normal_negative[1] { -1 } else { 0 };
                        let dz: i32 = if h.normal_negative[2] { -1 } else { 0 };
                        let pos = IVec3 { x: h.cell.x + dx - 1, y: h.cell.y + dy - 1, z: h.cell.z + dz - 1 };
                        msgs.push(ClientMessage::PlaceBlock { pos, block });
                    },
                    _ => {},
                }
            }
        } else if left {
            let pos = IVec3 {
                x: h.cell.x - 1 - h.normal.x,
                y: h.cell.y - 1 - h.normal.y,
                z: h.cell.z - 1 - h.normal.z,
            };
            msgs.push(ClientMessage::BreakBlock(pos));
        }
        assert(msgs@ =~= before + hit_messages(h, right, left, *holding));
        k = k + 1;
    }
    assert(hits@.take(hits@.len() as int) =~= hits@);
    msgs
}


/// A right click with a block in hand places that block once for every hit
/// within reach, in order, in the cell in front of the hit face: on each
/// axis one back from the hit cell, and one more back on an axis whose
/// normal points to the negative side.
pub proof fn lemma_right_click_places_in_front(hs: Seq<RayHit>, left: bool, block: BlockType, stackable: bool)
    ensures
        interaction_messages(hs, true, left, HoldingItem(Some(Item::Block { block, stackable })))
            == hs.filter(|h: RayHit| h.in_reach).map_values(
            |h: RayHit|
                ClientMessage::PlaceBlock {
                    pos: IVec3 {
                        x: (h.cell.x - 1 - (if h.normal_negative@[0] { 1int } else { 0int })) as i32,
                        y: (h.cell.y - 1 - (if h.normal_negative@[1] { 1int } else { 0int })) as i32,
                        z: (h.cell.z - 1 - (if h.normal_negative@[2] { 1int } else { 0int })) as i32,
                    },
                    block,
                },
        ),
    decreases hs.len(),
{
    let holding = HoldingItem(Some(Item::Block { block, stackable }));
    let f = |h: RayHit| h.in_reach;
    let g = |h: RayHit|
        ClientMessage::PlaceBlock {
            pos: IVec3 {
                x: (h.cell.x - 1 - (if h.normal_negative@[0] { 1int } else { 0int })) as i32,
                y: (h.cell.y - 1 - (if h.normal_negative@[1] { 1int } else { 0int })) as i32,
                z: (h.cell.z - 1 - (if h.normal_negative@[2] { 1int } else { 0int })) as i32,
            },
            block,
        };
    reveal(Seq::filter);
    if hs.len() == 0 {
        assert(hs.filter(f).map_values(g) =~= Seq::<ClientMessage>::empty());
    } else {
        lemma_right_click_places_in_front(hs.drop_last(), left, block, stackable);
        let prev = hs.drop_last().filter(f);
        let h = hs.last();
        if f(h) {
            assert(hs.filter(f) == prev.push(h));
            assert(place_target(h) == (IVec3 {
                x: (h.cell.x - 1 - (if h.normal_negative@[0] { 1int } else { 0int })) as i32,
                y: (h.cell.y - 1 - (if h.normal_negative@[1] { 1int } else { 0int })) as i32,
                z: (h.cell.z - 1 - (if h.normal_negative@[2] { 1int } else { 0int })) as i32,
            }));
            assert(prev.push(h).map_values(g) =~= prev.map_values(g).push(g(h)));
            assert(prev.map_values(g) + seq![g(h)] =~= prev.map_values(g).push(g(h)));
        } else {
            assert(hs.filter(f) == prev);
            assert(prev.map_values(g) + Seq::<ClientMessage>::empty() =~= prev.map_values(g));
        }
    }
}

/// A left click (without a right click) breaks, for every hit, in order and
/// at any distance, the block behind the hit face: the hit cell moved one
/// back on each axis and one step against the normal.
pub proof fn lemma_left_click_breaks_behind(hs: Seq<RayHit>, holding: HoldingItem)
    ensures
        interaction_messages(hs, false, true, holding) == hs.map_values(
            |h: RayHit|
                ClientMessage::BreakBlock(
                    IVec3 {
                        x: (h.cell.x - 1 - h.normal.x) as i32,
                        y: (h.cell.y - 1 - h.normal.y) as i32,
                        z: (h.cell.z - 1 - h.normal.z) as i32,
                    },
                ),
        ),
    decreases hs.len(),
{
    let g = |h: RayHit|
        ClientMessage::BreakBlock(
            IVec3 {
                x: (h.cell.x - 1 - h.normal.x) as i32,
                y: (h.cell.y - 1 - h.normal.y) as i32,
                z: (h.cell.z - 1 - h.normal.z) as i32,
            },
        );
    if hs.len() == 0 {
        assert(hs.map_values(g) =~= Seq::<ClientMessage>::empty());
    } else {
        lemma_left_click_breaks_behind(hs.drop_last(), holding);
        assert(hs.map_values(g) =~= hs.drop_last().map_values(g) + seq![g(hs.last())]);
    }
}

/// Without a click, or with a right click and no block in hand, nothing is
/// sent.
pub proof fn lemma_no_message_without_action(hs: Seq<RayHit>, right: bool, left: bool, holding: HoldingItem)
    requires
        (!right && !left) || (right && !(holding.0 matches Some(Item::Block { .. }))),
    ensures
        interaction_messages(hs, right, left, holding) == Seq::<ClientMessage>::empty(),
    decreases hs.len(),
{
    if hs.len() > 0 {
        lemma_no_message_without_action(hs.drop_last(), right, left, holding);
        assert(interaction_messages(hs.drop_last(), right, left, holding) + Seq::<ClientMessage>::empty()
            =~= Seq::<ClientMessage>::empty());
    }
}

} // verus!

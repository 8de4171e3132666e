use biorite::blocks::BlockType;
use biorite::hotbar::{
    holding_item, hotbar_prototype, intersection, HoldingItem, Hotbar, Item, ItemSlot, RayHit, HOTBAR_SLOTS,
};
use biorite::pos::IVec3;
use biorite::protocol::ClientMessage;

fn stone() -> Item {
    Item::Block { block: BlockType::Stone, stackable: true }
}

#[test]
fn default_hotbar_is_empty_with_second_slot_selected() {
    let h = Hotbar::default();
    assert_eq!(h.selected(), 1);
    for i in 0..HOTBAR_SLOTS {
        assert_eq!(h.get_slot(i), ItemSlot(None));
    }
}

#[test]
fn number_keys_select_slots() {
    let mut h = Hotbar::default();
    hotbar_prototype(&mut h, [true, false, false, false]);
    assert_eq!(h.selected(), 0);
    hotbar_prototype(&mut h, [false, false, true, false]);
    assert_eq!(h.selected(), 2);
    hotbar_prototype(&mut h, [false, false, false, false]);
    assert_eq!(h.selected(), 2);
    hotbar_prototype(&mut h, [true, true, false, true]);
    assert_eq!(h.selected(), 3);
}

#[test]
fn hand_holds_the_selected_slot() {
    let mut slots = [ItemSlot(None); 9];
    slots[0] = ItemSlot(Some(stone()));
    slots[1] = ItemSlot(Some(Item::Misc { item: 7, stackable: false }));
    let mut h = Hotbar::with_slots(slots);
    let mut hand = HoldingItem(None);
    holding_item(&h, &mut hand);
    assert_eq!(hand, HoldingItem(Some(Item::Misc { item: 7, stackable: false })));
    hotbar_prototype(&mut h, [true, false, false, false]);
    holding_item(&h, &mut hand);
    assert_eq!(hand, HoldingItem(Some(stone())));
    hotbar_prototype(&mut h, [false, false, true, false]);
    holding_item(&h, &mut hand);
    assert_eq!(hand, HoldingItem(None));
    assert_eq!(h.get_slot(0), ItemSlot(Some(stone())));
}

fn hit(cell: IVec3, normal: IVec3, in_reach: bool) -> RayHit {
    RayHit { cell, normal_negative: [normal.x < 0, normal.y < 0, normal.z < 0], normal, in_reach }
}

fn placed(m: &ClientMessage) -> Option<(IVec3, BlockType)> {
    match m {
        ClientMessage::PlaceBlock { pos, block } => Some((*pos, *block)),
        _ => None,
    }
}

fn broken(m: &ClientMessage) -> Option<IVec3> {
    match m {
        ClientMessage::BreakBlock(pos) => Some(*pos),
        _ => None,
    }
}

#[test]
fn right_click_places_the_held_block_in_front_of_the_face() {
    let hand = HoldingItem(Some(stone()));
    let up = hit(IVec3::new(10, 5, -3), IVec3::new(0, 1, 0), true);
    let down = hit(IVec3::new(10, 5, -3), IVec3::new(0, -1, 0), true);
    let msgs = intersection(&vec![up, down], true, false, &hand);
    assert_eq!(msgs.len(), 2);
    assert_eq!(placed(&msgs[0]), Some((IVec3::new(9, 4, -4), BlockType::Stone)));
    assert_eq!(placed(&msgs[1]), Some((IVec3::new(9, 3, -4), BlockType::Stone)));
}

#[test]
fn right_click_needs_reach_and_a_block_in_hand() {
    let far = hit(IVec3::new(0, 0, 0), IVec3::new(1, 0, 0), false);
    assert!(intersection(&vec![far], true, false, &HoldingItem(Some(stone()))).is_empty());
    let near = hit(IVec3::new(0, 0, 0), IVec3::new(1, 0, 0), true);
    assert!(intersection(&vec![near], true, false, &HoldingItem(None)).is_empty());
    let misc = HoldingItem(Some(Item::Misc { item: 1, stackable: true }));
    assert!(intersection(&vec![near], true, true, &misc).is_empty());
}

#[test]
fn left_click_breaks_behind_the_face_at_any_distance() {
    let far = hit(IVec3::new(4, 8, 2), IVec3::new(0, 1, 0), false);
    let side = hit(IVec3::new(4, 8, 2), IVec3::new(-1, 0, 0), true);
    let msgs = intersection(&vec![far, side], false, true, &HoldingItem(None));
    assert_eq!(msgs.len(), 2);
    assert_eq!(broken(&msgs[0]), Some(IVec3::new(3, 6, 1)));
    assert_eq!(broken(&msgs[1]), Some(IVec3::new(4, 7, 1)));
    assert!(intersection(&vec![far], false, false, &HoldingItem(None)).is_empty());
}

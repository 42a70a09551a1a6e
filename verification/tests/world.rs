use thanatos::items::{
    Inventory, Item, ItemKind, ItemStack, Rarity, Recipe, RecipeOutput,
};
use thanatos::signals::Signals;

fn wood(rarity: Rarity, quantity: usize) -> ItemStack {
    ItemStack { item: Item { kind: ItemKind::Wood, rarity }, quantity }
}

#[test]
fn rarity_next_climbs_and_caps() {
    assert_eq!(Rarity::Common.next(), Rarity::Uncommon);
    assert_eq!(Rarity::Uncommon.next(), Rarity::Rare);
    assert_eq!(Rarity::Rare.next(), Rarity::Epic);
    assert_eq!(Rarity::Epic.next(), Rarity::Legendary);
    assert_eq!(Rarity::Legendary.next(), Rarity::Legendary);
}

#[test]
fn inventory_add_accumulates() {
    let mut inv = Inventory::default();
    let item = Item { kind: ItemKind::Wood, rarity: Rarity::Common };
    assert_eq!(inv.get(item), None);
    inv.add(wood(Rarity::Common, 2));
    assert_eq!(inv.get(item), Some(2));
    inv.add(wood(Rarity::Common, 3));
    assert_eq!(inv.get(item), Some(5));
    // A different rarity is a different item.
    inv.add(wood(Rarity::Rare, 1));
    assert_eq!(inv.get(item), Some(5));
    assert_eq!(inv.get(Item { kind: ItemKind::Wood, rarity: Rarity::Rare }), Some(1));
}

#[test]
fn inventory_remove_subtracts_in_place() {
    let mut inv = Inventory::default();
    let item = Item { kind: ItemKind::CopperOre, rarity: Rarity::Common };
    inv.add(ItemStack { item, quantity: 5 });
    assert_eq!(inv.remove(ItemStack { item, quantity: 2 }), Some(()));
    assert_eq!(inv.get(item), Some(3));
    // Removing an unheld item reports failure and changes nothing.
    let other = Item { kind: ItemKind::CopperIngot, rarity: Rarity::Common };
    assert_eq!(inv.remove(ItemStack { item: other, quantity: 1 }), None);
    assert_eq!(inv.get(item), Some(3));
}

#[test]
fn inventory_set_overwrites() {
    let mut inv = Inventory::default();
    let item = Item { kind: ItemKind::Wood, rarity: Rarity::Epic };
    inv.set(ItemStack { item, quantity: 4 });
    assert_eq!(inv.get(item), Some(4));
    inv.set(ItemStack { item, quantity: 1 });
    assert_eq!(inv.get(item), Some(1));
}

#[test]
fn inventory_items_lists_every_slot() {
    let mut inv = Inventory::default();
    inv.add(wood(Rarity::Common, 2));
    inv.add(wood(Rarity::Rare, 7));
    let stacks = inv.items();
    assert_eq!(stacks.len(), 2);
    assert!(stacks.contains(&wood(Rarity::Common, 2)));
    assert!(stacks.contains(&wood(Rarity::Rare, 7)));
}

#[test]
fn craftable_needs_enough_of_each_input() {
    let recipe = Recipe {
        inputs: vec![(ItemKind::Wood, 2), (ItemKind::CopperOre, 1)],
        output: RecipeOutput::Items(ItemKind::CopperIngot, 1),
    };
    let inventory = [
        wood(Rarity::Common, 3),
        ItemStack {
            item: Item { kind: ItemKind::CopperOre, rarity: Rarity::Common },
            quantity: 1,
        },
    ];
    assert!(recipe.craftable(&inventory, &[Rarity::Common, Rarity::Common]));
    // Asking for a rarity the inventory does not hold fails.
    assert!(!recipe.craftable(&inventory, &[Rarity::Rare, Rarity::Common]));
    // A short inventory fails on quantity.
    let poor = [wood(Rarity::Common, 1)];
    assert!(!recipe.craftable(&poor, &[Rarity::Common, Rarity::Common]));
}

#[test]
fn craftable_checks_only_paired_inputs() {
    let recipe = Recipe {
        inputs: vec![(ItemKind::Wood, 2), (ItemKind::CopperOre, 100)],
        output: RecipeOutput::Items(ItemKind::CopperIngot, 1),
    };
    let inventory = [wood(Rarity::Common, 2)];
    // Only the first input is paired with a rarity, so only it is checked.
    assert!(recipe.craftable(&inventory, &[Rarity::Common]));
}

#[test]
fn item_kind_names() {
    assert_eq!(ItemKind::Wood.name(), "Wood");
    assert_eq!(ItemKind::CopperOre.name(), "Copper Ore");
    assert_eq!(ItemKind::CopperIngot.name(), "Copper Ingot");
}

#[test]
fn signals_allocate_set_and_clear() {
    let mut signals = Signals::default();
    let a = signals.signal();
    let b = signals.signal();
    assert!(!signals.get(a));
    assert!(!signals.get(b));
    signals.set(b);
    assert!(!signals.get(a));
    assert!(signals.get(b));
    signals.clear();
    assert!(!signals.get(a));
    assert!(!signals.get(b));
}

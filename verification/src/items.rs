//! Items, rarities, crafting recipes and the player inventory.

use vstd::prelude::*;

verus! {

#[derive(Clone, Copy, Debug, PartialEq, Eq, Hash, Structural)]
pub enum ItemKind {
    Wood,
    CopperOre,
    CopperIngot,
}

impl ItemKind {
    /// Human-readable name, offered in place of a display implementation.
    pub fn name(&self) -> (r: &'static str)
    {
        match self {
            ItemKind::Wood => "Wood",
            ItemKind::CopperOre => "Copper Ore",
            ItemKind::CopperIngot => "Copper Ingot",
        }
    }
}

#[derive(Clone, Copy, Debug, PartialEq, Eq, Hash, Structural)]
pub enum Rarity {
    Common,
    Uncommon,
    Rare,
    Epic,
    Legendary,
}

impl Rarity {
    /// The tier above this one; the top tier stays where it is.
    pub open spec fn spec_next(self) -> Rarity {
        match self {
            Rarity::Common => Rarity::Uncommon,
            Rarity::Uncommon => Rarity::Rare,
            Rarity::Rare => Rarity::Epic,
            Rarity::Epic => Rarity::Legendary,
            Rarity::Legendary => Rarity::Legendary,
        }
    }

    pub fn next(&self) -> (r: Rarity)
        ensures
            r == self.spec_next(),
    {
        match self {
            Rarity::Common => Rarity::Uncommon,
            Rarity::Uncommon => Rarity::Rare,
            Rarity::Rare => Rarity::Epic,
            Rarity::Epic => Rarity::Legendary,
            Rarity::Legendary => Rarity::Legendary,
        }
    }
}

/// A kind of equipment produced by crafting, identified stably.
#[derive(Clone, Copy, Debug, PartialEq, Eq, Hash, Structural)]
pub struct EquipmentKind(pub u64);

#[derive(Clone, Copy, Debug, PartialEq, Eq, Hash, Structural)]
pub struct Item {
    pub kind: ItemKind,
    pub rarity: Rarity,
}

#[derive(Clone, Copy, Debug, PartialEq, Eq, Structural)]
pub struct ItemStack {
    pub item: Item,
    pub quantity: usize,
}

#[derive(Clone, Debug)]
pub enum RecipeOutput {
    Items(ItemKind, usize),
    Equipment(EquipmentKind),
}

#[derive(Clone, Debug)]
pub struct Recipe {
    pub inputs: Vec<(ItemKind, usize)>,
    pub output: RecipeOutput,
}

/// Quantity held by the first stack of exactly this item, or zero when no
/// stack matches.
pub open spec fn stack_quantity(inv: Seq<ItemStack>, item: Item) -> usize
    decreases inv.len(),
{
    if inv.len() == 0 {
        0
    } else if inv[0].item == item {
        inv[0].quantity
    } else {
        stack_quantity(inv.drop_first(), item)
    }
}

/// A recipe is craftable from an inventory when, pairing each input with the
/// rarity chosen for it, the inventory's first matching stack covers the
/// required quantity. Inputs beyond the chosen rarities are not consulted.
pub open spec fn spec_craftable(
    inputs: Seq<(ItemKind, usize)>,
    inv: Seq<ItemStack>,
    rarities: Seq<Rarity>,
) -> bool {
    forall|i: int|
        0 <= i < inputs.len() && i < rarities.len() ==> inputs[i].1 <= stack_quantity(
            inv,
            Item { kind: inputs[i].0, rarity: rarities[i] },
        )
}

/// Quantity held by the first stack of exactly this item, or zero.
fn first_stack_quantity(inventory: &[ItemStack], item: Item) -> (r: usize)
    ensures
        r == stack_quantity(inventory@, item),
{
    let ghost inv = inventory@;
    let mut i: usize = 0;
    proof {
        assert(inv.skip(0) =~= inv);
    }
    while i < inventory.len()
        invariant
            i <= inv.len(),
            inv == inventory@,
            stack_quantity(inv, item) == stack_quantity(inv.skip(i as int), item),
        decreases inv.len() - i,
    {
        proof {
            assert(inv.skip(i as int)[0] == inv[i as int]);
            assert(inv.skip(i as int).drop_first() =~= inv.skip(i + 1));
        }
        if inventory[i].item == item {
            return inventory[i].quantity;
        }
        i = i + 1;
    }
    proof {
        assert(inv.skip(inv.len() as int) =~= Seq::<ItemStack>::empty());
    }
    0
}

impl Recipe {
    /// Whether the inventory covers every input of this recipe at the chosen
    /// rarities.
    pub fn craftable(&self, inventory: &[ItemStack], rarities: &[Rarity]) -> (r: bool)
        ensures
            r == spec_craftable(self.inputs@, inventory@, rarities@),
    {
        let n = if self.inputs.len() < rarities.len() {
            self.inputs.len()
        } else {
            rarities.len()
        };
        let mut i: usize = 0;
        while i < n
            invariant
                i <= n,
                n == (if self.inputs@.len() < rarities@.len() {
                    self.inputs@.len()
                } else {
                    rarities@.len()
                }),
                forall|j: int|
                    0 <= j < i ==> self.inputs@[j].1 <= stack_quantity(
                        inventory@,
                        Item { kind: self.inputs@[j].0, rarity: rarities@[j] },
                    ),
            decreases n - i,
        {
            let (kind, quantity) = self.inputs[i];
            let have = first_stack_quantity(inventory, Item { kind, rarity: rarities[i] });
            if quantity > have {
                return false;
            }
            i = i + 1;
        }
        true
    }
}

/// Index of the first inventory slot holding this item, or -1.
pub open spec fn find_slot(s: Seq<(Item, usize)>, item: Item) -> int
    decreases s.len(),
{
    if s.len() == 0 {
        -1
    } else if s[0].0 == item {
        0
    } else {
        let r = find_slot(s.drop_first(), item);
        if r < 0 {
            -1
        } else {
            r + 1
        }
    }
}

/// The quantity stored for an item, if a slot holds it.
pub open spec fn slot_lookup(s: Seq<(Item, usize)>, item: Item) -> Option<usize> {
    let i = find_slot(s, item);
    if i >= 0 {
        Some(s[i].1)
    } else {
        None
    }
}

/// The slots with an item's quantity set, replacing its slot or appending a
/// fresh one.
pub open spec fn slot_set(s: Seq<(Item, usize)>, item: Item, quantity: usize) -> Seq<
    (Item, usize),
> {
    let i = find_slot(s, item);
    if i >= 0 {
        s.update(i, (item, quantity))
    } else {
        s.push((item, quantity))
    }
}

/// Everything `find_slot` promises: a valid index or -1, pointing at the item
/// sought, with no earlier slot matching.
pub proof fn lemma_find_slot(s: Seq<(Item, usize)>, item: Item)
    ensures
        -1 <= find_slot(s, item) < s.len(),
        find_slot(s, item) >= 0 ==> s[find_slot(s, item)].0 == item,
        forall|j: int| 0 <= j < find_slot(s, item) ==> s[j].0 != item,
        find_slot(s, item) == -1 ==> forall|j: int| 0 <= j < s.len() ==> s[j].0 != item,
    decreases s.len(),
{
    if s.len() == 0 {
    } else if s[0].0 == item {
    } else {
        lemma_find_slot(s.drop_first(), item);
        let r = find_slot(s.drop_first(), item);
        assert(forall|j: int| 1 <= j < s.len() ==> s[j] == s.drop_first()[j - 1]);
        if r >= 0 {
            assert(s[r + 1] == s.drop_first()[r]);
            assert(forall|j: int| 0 <= j < r + 1 ==> s[j].0 != item) by {
                assert(forall|j: int| 1 <= j < r + 1 ==> s[j] == s.drop_first()[j - 1]);
            }
        } else {
            assert(forall|j: int| 0 <= j < s.len() ==> s[j].0 != item) by {
                assert(forall|j: int| 1 <= j < s.len() ==> s[j] == s.drop_first()[j - 1]);
            }
        }
    }
}

/// The player's inventory: one slot per distinct item.
#[derive(Debug)]
pub struct Inventory(Vec<(Item, usize)>);

impl View for Inventory {
    type V = Seq<(Item, usize)>;

    closed spec fn view(&self) -> Seq<(Item, usize)> {
        self.0@
    }
}

impl Default for Inventory {
    fn default() -> (r: Inventory)
        ensures
            r@ == Seq::<(Item, usize)>::empty(),
            r.wf(),
    {
        Inventory(Vec::new())
    }
}

impl Inventory {
    /// Well-formedness: at most one slot per item.
    pub open spec fn wf(&self) -> bool {
        forall|i: int, j: int| 0 <= i < j < self@.len() ==> self@[i].0 != self@[j].0
    }

    /// Index of this item's slot, if one exists.
    fn find_index(&self, item: Item) -> (r: Option<usize>)
        ensures
            r is Some ==> find_slot(self@, item) == r->Some_0,
            r is None ==> find_slot(self@, item) == -1,
    {
        proof {
            lemma_find_slot(self@, item);
        }
        let mut i: usize = 0;
        while i < self.0.len()
            invariant
                i <= self.0.len(),
                forall|j: int| 0 <= j < i ==> self@[j].0 != item,
            decreases self.0.len() - i,
        {
            if self.0[i].0 == item {
                proof {
                    lemma_find_slot(self@, item);
                    assert(self@[i as int].0 == item);
                }
                return Some(i);
            }
            i = i + 1;
        }
        None
    }

    /// Add a stack: a held item's quantity grows, an unheld one gets a slot.
    pub fn add(&mut self, stack: ItemStack)
        requires
            old(self).wf(),
            slot_lookup(old(self)@, stack.item) is Some ==> slot_lookup(
                old(self)@,
                stack.item,
            )->Some_0 + stack.quantity <= usize::MAX,
        ensures
            final(self).wf(),
            final(self)@ == slot_set(
                old(self)@,
                stack.item,
                match slot_lookup(old(self)@, stack.item) {
                    Some(q) => (q + stack.quantity) as usize,
                    None => stack.quantity,
                },
            ),
    {
        proof {
            lemma_find_slot(old(self)@, stack.item);
        }
        match self.find_index(stack.item) {
            Some(i) => {
                let q = self.0[i].1;
                self.0.set(i, (stack.item, q + stack.quantity));
            },
            None => {
                self.0.push((stack.item, stack.quantity));
            },
        }
    }

    /// Take a stack's quantity out of its slot. Succeeds exactly when the
    /// item is held; the slot must cover the quantity removed.
    pub fn remove(&mut self, stack: ItemStack) -> (r: Option<()>)
        requires
            old(self).wf(),
            slot_lookup(old(self)@, stack.item) is Some ==> stack.quantity <= slot_lookup(
                old(self)@,
                stack.item,
            )->Some_0,
        ensures
            final(self).wf(),
            slot_lookup(old(self)@, stack.item) is Some ==> r == Some(()) && final(self)@
                == slot_set(
                old(self)@,
                stack.item,
                (slot_lookup(old(self)@, stack.item)->Some_0 - stack.quantity) as usize,
            ),
            slot_lookup(old(self)@, stack.item) is None ==> r is None && final(self)@ == old(
                self,
            )@,
    {
        proof {
            lemma_find_slot(old(self)@, stack.item);
        }
        match self.find_index(stack.item) {
            Some(i) => {
                let q = self.0[i].1;
                self.0.set(i, (stack.item, q - stack.quantity));
                Some(())
            },
            None => None,
        }
    }

    /// The quantity held of an item, if any slot holds it.
    pub fn get(&self, item: Item) -> (r: Option<usize>)
        ensures
            r == slot_lookup(self@, item),
    {
        proof {
            lemma_find_slot(self@, item);
        }
        match self.find_index(item) {
            Some(i) => Some(self.0[i].1),
            None => None,
        }
    }

    /// Overwrite the quantity held of an item, slotting it if absent.
    pub fn set(&mut self, stack: ItemStack)
        requires
            old(self).wf(),
        ensures
            final(self).wf(),
            final(self)@ == slot_set(old(self)@, stack.item, stack.quantity),
    {
        proof {
            lemma_find_slot(old(self)@, stack.item);
        }
        match self.find_index(stack.item) {
            Some(i) => {
                self.0.set(i, (stack.item, stack.quantity));
            },
            None => {
                self.0.push((stack.item, stack.quantity));
            },
        }
    }

    /// Every held stack, one per slot, in slot order.
    pub fn items(&self) -> (r: Vec<ItemStack>)
        ensures
            r@.len() == self@.len(),
            forall|i: int|
                0 <= i < self@.len() ==> r@[i] == (ItemStack {
                    item: self@[i].0,
                    quantity: self@[i].1,
                }),
    {
        let mut out: Vec<ItemStack> = Vec::new();
        let mut i: usize = 0;
        while i < self.0.len()
            invariant
                i <= self@.len(),
                out@.len() == i,
                forall|j: int|
                    0 <= j < i ==> out@[j] == (ItemStack {
                        item: self@[j].0,
                        quantity: self@[j].1,
                    }),
            decreases self@.len() - i,
        {
            let (item, quantity) = self.0[i];
            out.push(ItemStack { item, quantity });
            i = i + 1;
        }
        out
    }
}

} // verus!

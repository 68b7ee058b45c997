use vstd::prelude::*;

use crate::board::{Direction, Position};
use crate::players::ExplorerData;

verus! {

/// An item that a player can hold.
#[derive(Clone, PartialEq, Eq, Debug)]
pub enum Thing {
    Food { name: String, energy: i32 },
    GoldCoin { denom: i32 },
    FakeCoin { denom: i32 },
    Teleporter,
    Torch,
    MagicWord { word: String, room: Position, wall: Direction },
    FakeWord { word: String },
}

/// The classes of items that the rules look for.
#[derive(Clone, Copy, PartialEq, Eq, Structural, Debug)]
pub enum ItemClass {
    Food,
    GoldCoin,
    FakeCoin,
}

/// Whether `t` belongs to class `c`: a matter of its variant alone.
pub open spec fn in_class(t: Thing, c: ItemClass) -> bool {
    match c {
        ItemClass::Food => t is Food,
        ItemClass::GoldCoin => t is GoldCoin,
        ItemClass::FakeCoin => t is FakeCoin,
    }
}

/// Whether some item of `s` belongs to class `c`.
pub open spec fn holds_any(s: Seq<Thing>, c: ItemClass) -> bool {
    exists|i: int| 0 <= i < s.len() && #[trigger] in_class(s[i], c)
}

/// `i` is the first index of `s` whose item belongs to class `c`.
pub open spec fn is_first_match(s: Seq<Thing>, c: ItemClass, i: int) -> bool {
    &&& 0 <= i < s.len()
    &&& in_class(s[i], c)
    &&& forall|j: int| 0 <= j < i ==> !#[trigger] in_class(s[j], c)
}

/// The first index of `s` whose item belongs to class `c` (meaningful
/// where `holds_any(s, c)`).
pub open spec fn first_match(s: Seq<Thing>, c: ItemClass) -> int {
    choose|i: int| is_first_match(s, c, i)
}

/// Where `s` holds an item of class `c`, `first_match` is the one index
/// that `is_first_match` describes.
pub proof fn lemma_first_match(s: Seq<Thing>, c: ItemClass, i: int)
    requires
        is_first_match(s, c, i),
    ensures
        first_match(s, c) == i,
{
    let k = first_match(s, c);
    assert(is_first_match(s, c, k));
    if k < i {
        assert(in_class(s[k], c));
    } else if i < k {
        assert(in_class(s[i], c));
    }
}

/// Where `s` holds an item of class `c`, some index is the first one.
pub proof fn lemma_first_match_exists(s: Seq<Thing>, c: ItemClass)
    requires
        holds_any(s, c),
    ensures
        is_first_match(s, c, first_match(s, c)),
    decreases s.len(),
{
    if in_class(s[0], c) {
        assert(is_first_match(s, c, 0));
    } else {
        let t = s.drop_first();
        let i = choose|i: int| 0 <= i < s.len() && #[trigger] in_class(s[i], c);
        assert(in_class(t[i - 1], c));
        lemma_first_match_exists(t, c);
        let k = first_match(t, c);
        assert forall|j: int| 0 <= j < k + 1 implies !#[trigger] in_class(s[j], c) by {
            if j > 0 {
                assert(s[j] == t[j - 1]);
            }
        }
        assert(is_first_match(s, c, k + 1));
    }
}

impl Thing {
    pub fn is_food(&self) -> (r: bool)
        ensures
            r == (*self is Food),
    {
        match self {
            Thing::Food { .. } => true,
            _ => false,
        }
    }

    pub fn is_fake_coin(&self) -> (r: bool)
        ensures
            r == (*self is FakeCoin),
    {
        match self {
            Thing::FakeCoin { .. } => true,
            _ => false,
        }
    }

    pub fn is_gold_coin(&self) -> (r: bool)
        ensures
            r == (*self is GoldCoin),
    {
        match self {
            Thing::GoldCoin { .. } => true,
            _ => false,
        }
    }

    pub fn in_class(&self, c: ItemClass) -> (r: bool)
        ensures
            r == in_class(*self, c),
    {
        match c {
            ItemClass::Food => self.is_food(),
            ItemClass::GoldCoin => self.is_gold_coin(),
            ItemClass::FakeCoin => self.is_fake_coin(),
        }
    }
}

/// Whether some item of `things` belongs to class `c`.
pub fn has_any(things: &Vec<Thing>, c: ItemClass) -> (r: bool)
    ensures
        r == holds_any(things@, c),
{
    let mut i: usize = 0;
    while i < things.len()
        invariant
            i <= things@.len(),
            forall|j: int| 0 <= j < i ==> !#[trigger] in_class(things@[j], c),
        decreases things@.len() - i,
    {
        if things[i].in_class(c) {
            return true;
        }
        i = i + 1;
    }
    false
}

/// Removes and returns the first item of class `c`; the others keep their
/// order. There must be one: check with `has_any` first.
pub fn remove_first_matching(things: &mut Vec<Thing>, c: ItemClass) -> (r: Thing)
    requires
        holds_any(old(things)@, c),
    ensures
        is_first_match(old(things)@, c, first_match(old(things)@, c)),
        r == old(things)@[first_match(old(things)@, c)],
        final(things)@ == old(things)@.remove(first_match(old(things)@, c)),
{
    proof {
        lemma_first_match_exists(things@, c);
    }
    let ghost k = first_match(things@, c);
    let n: usize = things.len();
    let mut i: usize = 0;
    while !things[i].in_class(c)
        invariant
            0 <= i <= k,
            is_first_match(things@, c, k),
            things@.len() == n,
        decreases k - i,
    {
        i = i + 1;
    }
    proof {
        lemma_first_match(things@, c, i as int);
    }
    things.remove(i)
}

/// Empties `things` and returns what it held, in order.
pub fn take_all(things: &mut Vec<Thing>) -> (r: Vec<Thing>)
    ensures
        r@ == old(things)@,
        final(things)@ == Seq::<Thing>::empty(),
{
    let mut r: Vec<Thing> = Vec::new();
    std::mem::swap(things, &mut r);
    r
}

/// Whether the explorer carries a torch.
pub fn exp_has_torch(exp: &ExplorerData) -> (r: bool)
    ensures
        r == exists|i: int| 0 <= i < exp.things@.len() && #[trigger] exp.things@[i] is Torch,
{
    let mut i: usize = 0;
    while i < exp.things.len()
        invariant
            i <= exp.things@.len(),
            forall|j: int| 0 <= j < i ==> !(#[trigger] exp.things@[j] is Torch),
        decreases exp.things@.len() - i,
    {
        if let Thing::Torch = exp.things[i] {
            return true;
        }
        i = i + 1;
    }
    false
}

} // verus!

verus! {

/// Where `s` holds exactly one item of class `c`, at `i`, that item is the
/// one `remove_first_matching` takes, and the others stay in their order.
pub proof fn lemma_single_match(s: Seq<Thing>, c: ItemClass, i: int)
    requires
        0 <= i < s.len(),
        in_class(s[i], c),
        forall|j: int| 0 <= j < s.len() && j != i ==> !#[trigger] in_class(s[j], c),
    ensures
        holds_any(s, c),
        first_match(s, c) == i,
        s.remove(i).len() == s.len() - 1,
        forall|j: int| 0 <= j < i ==> #[trigger] s.remove(i)[j] == s[j],
        forall|j: int| i <= j < s.len() - 1 ==> #[trigger] s.remove(i)[j] == s[j + 1],
{
    lemma_first_match(s, c, i);
}

} // verus!

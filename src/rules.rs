use vstd::prelude::*;

use crate::inventory::{
    first_match, has_any, holds_any, remove_first_matching, take_all, ItemClass, Thing,
};
use crate::players::{ExplorerData, GnomeData, LeprechaunData, Player, PlayerKind, PlayerView};

verus! {

/// What an explorer may hand a gnome in a shake down.
#[derive(Clone, Copy, PartialEq, Eq, Structural, Debug)]
pub enum ShakeDownChoice {
    Everything,
    GoldCoin,
    FakeCoin,
}

/// A gnome robs an explorer when the gnome holds a fake coin, or when the
/// explorer holds no gold coin.
pub open spec fn should_rob(gnome: Seq<Thing>, exp: Seq<Thing>) -> bool {
    holds_any(gnome, ItemClass::FakeCoin) || !holds_any(exp, ItemClass::GoldCoin)
}

/// Whether an explorer holding `exp` can be asked for `c`: everything
/// always, a coin only when it holds one.
pub open spec fn offered(exp: Seq<Thing>, c: ShakeDownChoice) -> bool {
    match c {
        ShakeDownChoice::Everything => true,
        ShakeDownChoice::GoldCoin => holds_any(exp, ItemClass::GoldCoin),
        ShakeDownChoice::FakeCoin => holds_any(exp, ItemClass::FakeCoin),
    }
}

/// The inventories of gnome and explorer after the explorer hands over `c`.
pub open spec fn hand_over(
    gnome: Seq<Thing>,
    exp: Seq<Thing>,
    c: ShakeDownChoice,
) -> (Seq<Thing>, Seq<Thing>) {
    match c {
        ShakeDownChoice::Everything => (gnome + exp, Seq::empty()),
        ShakeDownChoice::GoldCoin => {
            let i = first_match(exp, ItemClass::GoldCoin);
            (gnome.push(exp[i]), exp.remove(i))
        },
        ShakeDownChoice::FakeCoin => {
            let i = first_match(exp, ItemClass::FakeCoin);
            (gnome.push(exp[i]), exp.remove(i))
        },
    }
}

/// The inventories of gnome and explorer after a shake down in which the
/// explorer chooses `c` (when robbed at all).
pub open spec fn shake_down_result(
    gnome: Seq<Thing>,
    exp: Seq<Thing>,
    c: ShakeDownChoice,
) -> (Seq<Thing>, Seq<Thing>) {
    if should_rob(gnome, exp) {
        hand_over(gnome, exp, c)
    } else {
        (gnome, exp)
    }
}

/// The pair is a gnome and an explorer, in either role, and the gnome robs.
pub open spec fn robbery(a: PlayerView, m: PlayerView) -> bool {
    ||| a.kind == PlayerKind::Explorer && m.kind == PlayerKind::Gnome
        && should_rob(m.things, a.things)
    ||| a.kind == PlayerKind::Gnome && m.kind == PlayerKind::Explorer
        && should_rob(a.things, m.things)
}

/// The explorer's items, in a pair of an explorer and another player.
pub open spec fn victim(a: PlayerView, m: PlayerView) -> Seq<Thing> {
    if a.kind == PlayerKind::Explorer {
        a.things
    } else {
        m.things
    }
}

/// A choice that the meeting of `a` and `m` can use: any, where nobody is
/// robbed; one that is offered to the explorer, where somebody is.
pub open spec fn choice_fits(a: PlayerView, m: PlayerView, c: ShakeDownChoice) -> bool {
    robbery(a, m) ==> offered(victim(a, m), c)
}

/// Active player `a` and occupant `m` after their meeting: a gnome shakes
/// an explorer down whichever of them is active; every other pair (a
/// leprechaun's trick or treat included) leaves both as they were.
pub open spec fn interaction(
    a: PlayerView,
    m: PlayerView,
    c: ShakeDownChoice,
) -> (PlayerView, PlayerView) {
    if a.kind == PlayerKind::Explorer && m.kind == PlayerKind::Gnome {
        let r = shake_down_result(m.things, a.things, c);
        (PlayerView { things: r.1, ..a }, PlayerView { things: r.0, ..m })
    } else if a.kind == PlayerKind::Gnome && m.kind == PlayerKind::Explorer {
        let r = shake_down_result(a.things, m.things, c);
        (PlayerView { things: r.0, ..a }, PlayerView { things: r.1, ..m })
    } else {
        (a, m)
    }
}

/// Whether `exp` must hand something to `gnome`.
fn should_rob_exp(gnome: &GnomeData, exp: &ExplorerData) -> (r: bool)
    ensures
        r == should_rob(gnome.things@, exp.things@),
{
    has_any(&gnome.things, ItemClass::FakeCoin) || !has_any(&exp.things, ItemClass::GoldCoin)
}

/// Takes from the explorer what it chose to hand over.
fn give_up(exp: &mut ExplorerData, choice: ShakeDownChoice) -> (r: Vec<Thing>)
    requires
        offered(old(exp).things@, choice),
    ensures
        final(exp).pos == old(exp).pos,
        (r@, final(exp).things@) == hand_over(Seq::empty(), old(exp).things@, choice),
{
    match choice {
        ShakeDownChoice::Everything => take_all(&mut exp.things),
        ShakeDownChoice::GoldCoin => {
            let item = remove_first_matching(&mut exp.things, ItemClass::GoldCoin);
            let mut items: Vec<Thing> = Vec::new();
            items.push(item);
            items
        },
        ShakeDownChoice::FakeCoin => {
            let item = remove_first_matching(&mut exp.things, ItemClass::FakeCoin);
            let mut items: Vec<Thing> = Vec::new();
            items.push(item);
            items
        },
    }
}

/// The gnome's shake down of the explorer: where the gnome robs, the items
/// the explorer chose move to the end of the gnome's inventory.
pub fn shake_down(gnome: &mut GnomeData, exp: &mut ExplorerData, choice: ShakeDownChoice)
    requires
        should_rob(old(gnome).things@, old(exp).things@) ==> offered(old(exp).things@, choice),
    ensures
        final(gnome).pos == old(gnome).pos,
        final(exp).pos == old(exp).pos,
        (final(gnome).things@, final(exp).things@) == shake_down_result(
            old(gnome).things@,
            old(exp).things@,
            choice,
        ),
{
    if should_rob_exp(gnome, exp) {
        let mut items = give_up(exp, choice);
        proof {
            let gs = old(gnome).things@;
            let es = old(exp).things@;
            if choice != ShakeDownChoice::Everything {
                assert(gs.push(items@[0]) =~= gs + items@);
            } else {
                assert(Seq::<Thing>::empty() + es =~= es);
            }
        }
        gnome.things.append(&mut items);
    }
}

/// The leprechaun's trick or treat with the explorer: it leaves both as
/// they are.
pub fn trick_or_treat(lep: &mut LeprechaunData, exp: &mut ExplorerData)
    ensures
        *final(lep) == *old(lep),
        *final(exp) == *old(exp),
{
}

/// The explorer meets `occupant`.
fn encounter_explorer(
    exp: &mut ExplorerData,
    occupant: Player,
    choice: ShakeDownChoice,
) -> (r: Player)
    requires
        choice_fits(Player::Explorer(*old(exp))@, occupant@, choice),
    ensures
        (Player::Explorer(*final(exp))@, r@) == interaction(
            Player::Explorer(*old(exp))@,
            occupant@,
            choice,
        ),
{
    match occupant {
        Player::Explorer(other) => Player::Explorer(other),
        Player::Gnome(mut gnome) => {
            shake_down(&mut gnome, exp, choice);
            Player::Gnome(gnome)
        },
        Player::Leprechaun(mut lep) => {
            trick_or_treat(&mut lep, exp);
            Player::Leprechaun(lep)
        },
    }
}

/// A gnome meets `occupant`.
fn encounter_gnome(gnome: &mut GnomeData, occupant: Player, choice: ShakeDownChoice) -> (r: Player)
    requires
        choice_fits(Player::Gnome(*old(gnome))@, occupant@, choice),
    ensures
        (Player::Gnome(*final(gnome))@, r@) == interaction(
            Player::Gnome(*old(gnome))@,
            occupant@,
            choice,
        ),
{
    match occupant {
        Player::Explorer(mut exp) => {
            shake_down(gnome, &mut exp, choice);
            Player::Explorer(exp)
        },
        Player::Gnome(other) => Player::Gnome(other),
        Player::Leprechaun(lep) => Player::Leprechaun(lep),
    }
}

/// A leprechaun meets `occupant`.
fn encounter_leprechaun(
    lep: &mut LeprechaunData,
    occupant: Player,
    choice: ShakeDownChoice,
) -> (r: Player)
    requires
        choice_fits(Player::Leprechaun(*old(lep))@, occupant@, choice),
    ensures
        (Player::Leprechaun(*final(lep))@, r@) == interaction(
            Player::Leprechaun(*old(lep))@,
            occupant@,
            choice,
        ),
{
    match occupant {
        Player::Explorer(mut exp) => {
            trick_or_treat(lep, &mut exp);
            Player::Explorer(exp)
        },
        Player::Gnome(gnome) => Player::Gnome(gnome),
        Player::Leprechaun(other) => Player::Leprechaun(other),
    }
}

/// The meeting of the active player with `occupant`, routed by the kinds of
/// the two; returns the occupant as it leaves.
pub fn interact(active: &mut Player, occupant: Player, choice: ShakeDownChoice) -> (r: Player)
    requires
        choice_fits(old(active)@, occupant@, choice),
    ensures
        (final(active)@, r@) == interaction(old(active)@, occupant@, choice),
{
    match active {
        Player::Explorer(exp) => encounter_explorer(exp, occupant, choice),
        Player::Gnome(gnome) => encounter_gnome(gnome, occupant, choice),
        Player::Leprechaun(lep) => encounter_leprechaun(lep, occupant, choice),
    }
}

/// Where the meeting of `active` with `occupant` is a robbery, the coins
/// that the explorer can be asked for: `(gold, fake)`.
pub fn robbery_offer(active: &Player, occupant: &Player) -> (r: Option<(bool, bool)>)
    ensures
        r is Some <==> robbery(active@, occupant@),
        r matches Some((gold, fake)) ==> {
            &&& gold == holds_any(victim(active@, occupant@), ItemClass::GoldCoin)
            &&& fake == holds_any(victim(active@, occupant@), ItemClass::FakeCoin)
        },
{
    match (active, occupant) {
        (Player::Explorer(exp), Player::Gnome(gnome)) | (Player::Gnome(gnome), Player::Explorer(exp)) => {
            if should_rob_exp(gnome, exp) {
                Some(
                    (
                        has_any(&exp.things, ItemClass::GoldCoin),
                        has_any(&exp.things, ItemClass::FakeCoin),
                    ),
                )
            } else {
                None
            }
        },
        _ => None,
    }
}

} // verus!

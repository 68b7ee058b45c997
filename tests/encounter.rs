use std::collections::VecDeque;

use textadventure::board::Position;
use textadventure::encounter::{Encounter, Prompt};
use textadventure::inventory::Thing;
use textadventure::players::{ExplorerData, GnomeData, LeprechaunData, Player, Players};
use textadventure::rules::ShakeDownChoice;

fn at(x: usize, y: usize) -> Position {
    Position { x, y }
}

fn apple() -> Thing {
    Thing::Food { name: String::from("apple"), energy: 5 }
}

fn explorer(pos: Position, things: Vec<Thing>) -> Player {
    Player::Explorer(ExplorerData { pos, things })
}

fn gnome(pos: Position, things: Vec<Thing>) -> Player {
    Player::Gnome(GnomeData { pos, things })
}

fn leprechaun(pos: Position, things: Vec<Thing>) -> Player {
    Player::Leprechaun(LeprechaunData { pos, things })
}

fn queue(ps: Vec<Player>) -> Players {
    ps.into_iter().collect::<VecDeque<Player>>()
}

fn things(p: &Player) -> Vec<Thing> {
    match p {
        Player::Explorer(e) => e.things.clone(),
        Player::Gnome(g) => g.things.clone(),
        Player::Leprechaun(l) => l.things.clone(),
    }
}

#[test]
fn gnome_robs_explorer_of_gold_coin() {
    let exp = explorer(at(2, 3), vec![Thing::GoldCoin { denom: 1 }, apple()]);
    let g = gnome(at(2, 3), vec![Thing::FakeCoin { denom: 1 }]);
    let mut enc = Encounter::new(g, queue(vec![exp]));
    assert_eq!(enc.resume(), Prompt::ShakeDown { gold: true, fake: false });
    assert!(enc.answer(ShakeDownChoice::GoldCoin));
    assert_eq!(enc.resume(), Prompt::Finished);
    assert!(enc.is_finished());
    let (active, others) = enc.finish();
    assert_eq!(things(&active), vec![Thing::FakeCoin { denom: 1 }, Thing::GoldCoin { denom: 1 }]);
    assert_eq!(others.len(), 1);
    assert_eq!(things(&others[0]), vec![apple()]);
}

#[test]
fn leprechaun_elsewhere_changes_nothing() {
    let exp = explorer(at(0, 0), vec![Thing::GoldCoin { denom: 2 }, Thing::Torch]);
    let lep = leprechaun(at(1, 1), vec![Thing::FakeCoin { denom: 3 }]);
    let mut enc = Encounter::new(lep.clone(), queue(vec![exp.clone()]));
    assert_eq!(enc.resume(), Prompt::Finished);
    let (active, others) = enc.finish();
    assert_eq!(active, lep);
    assert_eq!(others, queue(vec![exp]));
}

#[test]
fn leprechaun_on_same_cell_is_a_no_op() {
    let exp = explorer(at(4, 4), vec![Thing::GoldCoin { denom: 2 }]);
    let lep = leprechaun(at(4, 4), vec![]);
    let mut enc = Encounter::new(exp.clone(), queue(vec![lep.clone()]));
    assert_eq!(enc.resume(), Prompt::Finished);
    let (active, others) = enc.finish();
    assert_eq!(active, exp);
    assert_eq!(others, queue(vec![lep]));
}

#[test]
fn rotation_visits_each_member_once_in_order() {
    let members = vec![
        gnome(at(1, 1), vec![Thing::FakeCoin { denom: 1 }]),
        explorer(at(9, 9), vec![apple()]),
        leprechaun(at(1, 1), vec![Thing::Torch]),
        gnome(at(1, 1), vec![]),
        gnome(at(5, 5), vec![Thing::FakeCoin { denom: 7 }]),
    ];
    let exp = explorer(at(1, 1), vec![Thing::GoldCoin { denom: 1 }, Thing::FakeCoin { denom: 2 }]);
    let mut enc = Encounter::new(exp, queue(members.clone()));
    // first gnome holds a fake coin: it robs
    assert_eq!(enc.resume(), Prompt::ShakeDown { gold: true, fake: true });
    assert!(enc.answer(ShakeDownChoice::FakeCoin));
    // second gnome on the cell holds no fake coin, and the explorer still has gold: no robbery
    assert_eq!(enc.resume(), Prompt::Finished);
    let (active, others) = enc.finish();
    assert_eq!(things(&active), vec![Thing::GoldCoin { denom: 1 }]);
    assert_eq!(others.len(), members.len());
    assert_eq!(
        things(&others[0]),
        vec![Thing::FakeCoin { denom: 1 }, Thing::FakeCoin { denom: 2 }]
    );
    for i in 1..members.len() {
        assert_eq!(others[i], members[i]);
    }
}

#[test]
fn non_occupants_come_back_unchanged() {
    let members = vec![
        explorer(at(0, 1), vec![apple()]),
        explorer(at(3, 3), vec![]),
        leprechaun(at(2, 0), vec![Thing::Teleporter]),
    ];
    let g = gnome(at(0, 0), vec![Thing::FakeCoin { denom: 1 }]);
    let mut enc = Encounter::new(g.clone(), queue(members.clone()));
    assert_eq!(enc.resume(), Prompt::Finished);
    let (active, others) = enc.finish();
    assert_eq!(active, g);
    assert_eq!(others, queue(members));
}

#[test]
fn empty_queue_finishes_at_once() {
    let g = gnome(at(0, 0), vec![]);
    let mut enc = Encounter::new(g.clone(), queue(vec![]));
    assert!(enc.is_finished());
    assert_eq!(enc.resume(), Prompt::Finished);
    assert!(!enc.answer(ShakeDownChoice::Everything));
    let (active, others) = enc.finish();
    assert_eq!(active, g);
    assert!(others.is_empty());
}

#[test]
fn shake_down_is_the_same_whichever_side_is_active() {
    let e_things = vec![Thing::GoldCoin { denom: 4 }, apple(), Thing::FakeCoin { denom: 1 }];
    let g_things = vec![Thing::FakeCoin { denom: 9 }];

    let mut a = Encounter::new(
        gnome(at(2, 2), g_things.clone()),
        queue(vec![explorer(at(2, 2), e_things.clone())]),
    );
    let pa = a.resume();
    assert!(a.answer(ShakeDownChoice::GoldCoin));
    assert_eq!(a.resume(), Prompt::Finished);
    let (ga, qa) = a.finish();

    let mut b = Encounter::new(
        explorer(at(2, 2), e_things),
        queue(vec![gnome(at(2, 2), g_things)]),
    );
    let pb = b.resume();
    assert!(b.answer(ShakeDownChoice::GoldCoin));
    assert_eq!(b.resume(), Prompt::Finished);
    let (eb, qb) = b.finish();

    assert_eq!(pa, pb);
    assert_eq!(pa, Prompt::ShakeDown { gold: true, fake: true });
    assert_eq!(ga, qb[0]);
    assert_eq!(qa[0], eb);
    assert_eq!(
        things(&ga),
        vec![Thing::FakeCoin { denom: 9 }, Thing::GoldCoin { denom: 4 }]
    );
    assert_eq!(things(&eb), vec![apple(), Thing::FakeCoin { denom: 1 }]);
}

#[test]
fn unoffered_choice_is_refused_and_changes_nothing() {
    let exp = explorer(at(1, 2), vec![Thing::GoldCoin { denom: 1 }]);
    let g = gnome(at(1, 2), vec![Thing::FakeCoin { denom: 1 }]);
    let mut enc = Encounter::new(g, queue(vec![exp]));
    assert_eq!(enc.resume(), Prompt::ShakeDown { gold: true, fake: false });
    assert!(!enc.answer(ShakeDownChoice::FakeCoin));
    assert!(!enc.is_finished());
    assert_eq!(enc.resume(), Prompt::ShakeDown { gold: true, fake: false });
    assert!(enc.answer(ShakeDownChoice::Everything));
    assert_eq!(enc.resume(), Prompt::Finished);
    let (active, others) = enc.finish();
    assert_eq!(things(&active), vec![Thing::FakeCoin { denom: 1 }, Thing::GoldCoin { denom: 1 }]);
    assert_eq!(things(&others[0]), vec![]);
}

#[test]
fn explorer_without_gold_is_robbed_by_any_gnome() {
    let exp = explorer(at(6, 1), vec![apple(), Thing::Torch]);
    let g = gnome(at(6, 1), vec![]);
    let mut enc = Encounter::new(exp, queue(vec![g]));
    assert_eq!(enc.resume(), Prompt::ShakeDown { gold: false, fake: false });
    assert!(!enc.answer(ShakeDownChoice::GoldCoin));
    assert!(enc.answer(ShakeDownChoice::Everything));
    assert_eq!(enc.resume(), Prompt::Finished);
    let (active, others) = enc.finish();
    assert_eq!(things(&active), vec![]);
    assert_eq!(things(&others[0]), vec![apple(), Thing::Torch]);
}

#[test]
fn gnome_without_leverage_leaves_explorer_with_gold_alone() {
    let exp = explorer(at(0, 0), vec![Thing::GoldCoin { denom: 3 }]);
    let g = gnome(at(0, 0), vec![apple()]);
    let mut enc = Encounter::new(g.clone(), queue(vec![exp.clone()]));
    assert_eq!(enc.resume(), Prompt::Finished);
    let (active, others) = enc.finish();
    assert_eq!(active, g);
    assert_eq!(others, queue(vec![exp]));
}

#[test]
fn explorer_meets_several_gnomes_in_turn() {
    let exp = explorer(at(0, 0), vec![Thing::GoldCoin { denom: 1 }, Thing::GoldCoin { denom: 2 }]);
    let g1 = gnome(at(0, 0), vec![Thing::FakeCoin { denom: 1 }]);
    let g2 = gnome(at(0, 0), vec![Thing::FakeCoin { denom: 2 }]);
    let mut enc = Encounter::new(exp, queue(vec![g1, g2]));
    assert_eq!(enc.resume(), Prompt::ShakeDown { gold: true, fake: false });
    assert!(enc.answer(ShakeDownChoice::GoldCoin));
    assert_eq!(enc.resume(), Prompt::ShakeDown { gold: true, fake: false });
    assert!(enc.answer(ShakeDownChoice::GoldCoin));
    assert_eq!(enc.resume(), Prompt::Finished);
    let (active, others) = enc.finish();
    assert_eq!(things(&active), vec![]);
    assert_eq!(things(&others[0]), vec![Thing::FakeCoin { denom: 1 }, Thing::GoldCoin { denom: 1 }]);
    assert_eq!(things(&others[1]), vec![Thing::FakeCoin { denom: 2 }, Thing::GoldCoin { denom: 2 }]);
}

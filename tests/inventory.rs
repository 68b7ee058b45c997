use textadventure::board::{Direction, Position};
use textadventure::command::parse_shake_down_command;
use textadventure::inventory::{exp_has_torch, has_any, remove_first_matching, take_all, ItemClass, Thing};
use textadventure::players::{ExplorerData, GnomeData};
use textadventure::rules::{shake_down, trick_or_treat, ShakeDownChoice};
use textadventure::players::LeprechaunData;

fn apple() -> Thing {
    Thing::Food { name: String::from("apple"), energy: 5 }
}

fn word() -> Thing {
    Thing::MagicWord {
        word: String::from("xyzzy"),
        room: Position { x: 1, y: 2 },
        wall: Direction::North,
    }
}

#[test]
fn classification_goes_by_variant() {
    assert!(apple().is_food());
    assert!(!apple().is_gold_coin());
    assert!(Thing::GoldCoin { denom: 1 }.is_gold_coin());
    assert!(!Thing::GoldCoin { denom: 1 }.is_fake_coin());
    assert!(Thing::FakeCoin { denom: 1 }.is_fake_coin());
    assert!(!Thing::Torch.is_food());
    assert!(!word().is_fake_coin());
    assert!(!Thing::FakeWord { word: String::from("plugh") }.is_food());
    assert!(Thing::Teleporter.in_class(ItemClass::Food) == false);
}

#[test]
fn has_any_finds_a_match() {
    let v = vec![Thing::Torch, apple(), Thing::FakeCoin { denom: 2 }];
    assert!(has_any(&v, ItemClass::Food));
    assert!(has_any(&v, ItemClass::FakeCoin));
    assert!(!has_any(&v, ItemClass::GoldCoin));
    assert!(!has_any(&vec![], ItemClass::Food));
}

#[test]
fn removing_the_only_gold_coin_keeps_the_rest_in_order() {
    let mut v = vec![apple(), Thing::Torch, Thing::GoldCoin { denom: 5 }, word(), Thing::Teleporter];
    let r = remove_first_matching(&mut v, ItemClass::GoldCoin);
    assert_eq!(r, Thing::GoldCoin { denom: 5 });
    assert_eq!(v, vec![apple(), Thing::Torch, word(), Thing::Teleporter]);
}

#[test]
fn removal_takes_the_first_of_several() {
    let mut v = vec![Thing::FakeCoin { denom: 1 }, Thing::FakeCoin { denom: 2 }];
    let r = remove_first_matching(&mut v, ItemClass::FakeCoin);
    assert_eq!(r, Thing::FakeCoin { denom: 1 });
    assert_eq!(v, vec![Thing::FakeCoin { denom: 2 }]);
}

#[test]
fn take_all_empties_in_order() {
    let mut v = vec![apple(), Thing::Torch];
    let r = take_all(&mut v);
    assert_eq!(r, vec![apple(), Thing::Torch]);
    assert!(v.is_empty());
}

#[test]
fn torch_is_found() {
    let p = Position { x: 0, y: 0 };
    assert!(exp_has_torch(&ExplorerData { pos: p, things: vec![apple(), Thing::Torch] }));
    assert!(!exp_has_torch(&ExplorerData { pos: p, things: vec![apple()] }));
}

#[test]
fn shake_down_hands_over_a_fake_coin() {
    let p = Position { x: 3, y: 3 };
    let mut g = GnomeData { pos: p, things: vec![Thing::FakeCoin { denom: 8 }] };
    let mut e = ExplorerData { pos: p, things: vec![apple(), Thing::FakeCoin { denom: 1 }, Thing::Torch] };
    shake_down(&mut g, &mut e, ShakeDownChoice::FakeCoin);
    assert_eq!(g.things, vec![Thing::FakeCoin { denom: 8 }, Thing::FakeCoin { denom: 1 }]);
    assert_eq!(e.things, vec![apple(), Thing::Torch]);
}

#[test]
fn trick_or_treat_leaves_both_alone() {
    let p = Position { x: 3, y: 3 };
    let mut l = LeprechaunData { pos: p, things: vec![Thing::Torch] };
    let mut e = ExplorerData { pos: p, things: vec![Thing::GoldCoin { denom: 1 }] };
    trick_or_treat(&mut l, &mut e);
    assert_eq!(l.things, vec![Thing::Torch]);
    assert_eq!(e.things, vec![Thing::GoldCoin { denom: 1 }]);
}

#[test]
fn commands_are_read_from_the_first_letter() {
    assert_eq!(parse_shake_down_command("E\n"), Some(ShakeDownChoice::Everything));
    assert_eq!(parse_shake_down_command("  gold\n"), Some(ShakeDownChoice::GoldCoin));
    assert_eq!(parse_shake_down_command("\tf"), Some(ShakeDownChoice::FakeCoin));
    assert_eq!(parse_shake_down_command("x"), None);
    assert_eq!(parse_shake_down_command("   \n"), None);
    assert_eq!(parse_shake_down_command(""), None);
}

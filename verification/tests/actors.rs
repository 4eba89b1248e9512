use demoparser::parser_state::Entity;
use demoparser::parser_state::ItemNameTables;
use demoparser::parser_state::PlayerMetaData;
use demoparser::parser_state::PropCollectionError;
use demoparser::parser_state::PropController;
use demoparser::parser_state::PropNames;
use demoparser::parser_state::ResourceBudget;
use demoparser::parser_state::SecondPassParser;
use demoparser::parser_state::Variant;
use std::collections::HashMap;

const PAWN: u32 = 1;
const CONTROLLING_BOT: u32 = 2;
const PLAYER_PAWN: u32 = 3;
const SPOTTED: u32 = 4;

fn prop_names(with_spotted: bool) -> PropNames {
    let mut names = PropNames::new();
    names.insert("CCSPlayerController.m_hPawn".to_string(), PAWN);
    names.insert("CCSPlayerController.m_bControllingBot".to_string(), CONTROLLING_BOT);
    names.insert("CCSPlayerController.m_hPlayerPawn".to_string(), PLAYER_PAWN);
    if with_spotted {
        names.insert("CCSPlayerPawn.m_bSpottedByMask".to_string(), SPOTTED);
    }
    names
}

fn empty_parser() -> SecondPassParser {
    SecondPassParser {
        prop_controller: PropController { world_actors: true, name_to_id: prop_names(true) },
        entities: Vec::new(),
        players: HashMap::new(),
        userid_to_entity: HashMap::new(),
        resource_budget: ResourceBudget {
            retained_message_bytes: 0,
            max_retained_message_bytes: 1 << 20,
        },
        item_drops: Vec::new(),
        skins: Vec::new(),
        player_end_data: Vec::new(),
        item_names: ItemNameTables { weapons: HashMap::new(), paint_kits: HashMap::new() },
    }
}

fn put_entity(parser: &mut SecondPassParser, slot: i32, serial: u32, props: Vec<(u32, Variant)>) {
    while parser.entities.len() <= slot as usize {
        parser.entities.push(None);
    }
    parser.entities[slot as usize] = Some(Entity {
        entity_id: slot,
        serial,
        cls_id: 0,
        props: props.into_iter().collect(),
    });
}

fn player(pawn: Option<i32>, steamid: Option<u64>, controller: Option<i32>) -> PlayerMetaData {
    PlayerMetaData {
        player_entity_id: pawn,
        steamid,
        controller_entid: controller,
        name: None,
        team_num: None,
    }
}

fn handle(serial: u32, slot: i32) -> u32 {
    serial << 14 | slot as u32
}

const HUMAN: u64 = 76561198000000001;

/// A human (controller 1, pawn 10) and a bot (controller 2, pawn 11).
fn match_parser() -> SecondPassParser {
    let mut p = empty_parser();
    put_entity(&mut p, 1, 7, vec![
        (PAWN, Variant::U32(handle(4, 10))),
        (PLAYER_PAWN, Variant::U32(handle(4, 10))),
        (CONTROLLING_BOT, Variant::Bool(false)),
    ]);
    put_entity(&mut p, 2, 9, vec![
        (PAWN, Variant::U32(handle(5, 11))),
        (PLAYER_PAWN, Variant::U32(handle(5, 11))),
        (CONTROLLING_BOT, Variant::Bool(false)),
    ]);
    put_entity(&mut p, 10, 4, vec![(SPOTTED, Variant::U32(0b11))]);
    put_entity(&mut p, 11, 5, vec![(SPOTTED, Variant::Bool(true))]);
    p.players.insert(10, player(Some(10), Some(HUMAN), Some(1)));
    p.players.insert(11, player(Some(11), Some(0), Some(2)));
    p.userid_to_entity.insert(3, 10);
    p
}

#[test]
fn world_actors_flag() {
    let p = empty_parser();
    assert!(p.world_actors_enabled());
}

#[test]
fn actor_ids_are_accounts_or_bot_handles() {
    let p = match_parser();
    let human = p.players.get(&10).unwrap();
    assert_eq!(p.actor_id(human), Ok(HUMAN.to_string()));
    let bot = p.players.get(&11).unwrap();
    assert_eq!(p.actor_id(bot), Ok(format!("bot:{}", 9u32 << 14 | 2)));
    let orphan = player(Some(12), None, Some(40));
    assert_eq!(p.actor_id(&orphan), Err(PropCollectionError::ControllerEntityIdNotSet));
}

#[test]
fn pawn_handles_need_the_serial() {
    let p = match_parser();
    assert_eq!(p.actor_pawn_from_handle(handle(4, 10)), Some(10));
    // The same slot under another serial is a recycled entity.
    assert_eq!(p.actor_pawn_from_handle(handle(3, 10)), None);
    // A slot nobody plays.
    assert_eq!(p.actor_pawn_from_handle(handle(7, 1)), None);
}

#[test]
fn controller_values_read_the_controller() {
    let p = match_parser();
    let human = p.players.get(&10).unwrap();
    assert!(matches!(
        p.controller_value(human, "CCSPlayerController.m_hPawn"),
        Some(Variant::U32(h)) if h == handle(4, 10)
    ));
    assert!(p.controller_value(human, "unknown").is_none());
    assert!(matches!(
        p.get_controller_prop(&99, human),
        Err(PropCollectionError::ControllerPropNotFound)
    ));
}

#[test]
fn current_pawn_and_own_pawn() {
    let mut p = match_parser();
    let human = player(Some(10), Some(HUMAN), Some(1));
    assert_eq!(p.current_actor_pawn(&human), Some(10));
    assert!(p.actor_is_own_pawn(&human));
    // The human takes over the bot.
    put_entity(&mut p, 1, 7, vec![
        (PAWN, Variant::U32(handle(5, 11))),
        (PLAYER_PAWN, Variant::U32(handle(4, 10))),
        (CONTROLLING_BOT, Variant::Bool(true)),
    ]);
    assert_eq!(p.current_actor_pawn(&human), Some(11));
    assert!(!p.actor_is_own_pawn(&human));
    assert_eq!(p.actor_controller_steamid(11), Some(HUMAN));
    assert_eq!(p.actor_controller_steamid(10), None);
}

#[test]
fn spectating_keeps_the_playing_pawn() {
    let mut p = match_parser();
    // A dead human whose controller now holds a spectator pawn in slot 12.
    put_entity(&mut p, 12, 1, vec![]);
    p.players.insert(12, player(Some(12), Some(HUMAN + 1), None));
    put_entity(&mut p, 1, 7, vec![
        (PAWN, Variant::U32(handle(1, 12))),
        (PLAYER_PAWN, Variant::U32(handle(4, 10))),
        (CONTROLLING_BOT, Variant::Bool(false)),
    ]);
    let human = player(Some(10), Some(HUMAN), Some(1));
    assert_eq!(p.current_actor_pawn(&human), Some(10));
}

#[test]
fn event_pawns_resolve_through_userids() {
    let p = match_parser();
    // The user id names the same slot.
    assert_eq!(p.actor_from_event_pawn(10, Some(3)), Some(10));
    // The user id names another, own pawn: kept.
    assert_eq!(p.actor_from_event_pawn(11, Some(3)), Some(10));
    // No user id: the bot's slot resolves through its controller's handle.
    assert_eq!(p.actor_from_event_pawn(11 | 0x800, None), Some(11));
    // An unknown user id never falls back to a human.
    assert_eq!(p.actor_from_event_pawn(10, Some(99)), None);
    // But it may to a bot.
    assert_eq!(p.actor_from_event_pawn(11, Some(99)), Some(11));
}

#[test]
fn spotted_by_lists_actor_ids() {
    let p = match_parser();
    match p.actor_spotted_by(&10) {
        Ok(Variant::StringVec(ids)) => {
            assert_eq!(ids, vec![HUMAN.to_string(), format!("bot:{}", 9u32 << 14 | 2)]);
        }
        _ => panic!("expected a list"),
    }
    assert!(matches!(
        p.actor_spotted_by(&11),
        Err(PropCollectionError::SpottedIncorrectVariant)
    ));
    assert!(matches!(
        p.actor_spotted_by(&40),
        Err(PropCollectionError::GetPropFromEntEntityNotFound)
    ));
    let mut unnamed = match_parser();
    unnamed.prop_controller.name_to_id = prop_names(false);
    assert!(matches!(
        unnamed.actor_spotted_by(&10),
        Err(PropCollectionError::GetPropFromEntPropNotFound)
    ));
}

#[test]
fn find_user_by_controller() {
    let p = match_parser();
    assert_eq!(p.find_user_by_controller_id(2).and_then(|pl| pl.steamid), Some(0));
    assert!(p.find_user_by_controller_id(5).is_none());
    assert_eq!(p.entity_id_from_userid(3), Some(10));
    assert_eq!(p.entity_id_from_userid(4), None);
}

#[test]
fn prop_names_replace_ids() {
    let mut names = PropNames::new();
    assert_eq!(names.get("a"), None);
    names.insert("a".to_string(), 1);
    names.insert("b".to_string(), 2);
    names.insert("a".to_string(), 3);
    assert_eq!(names.get("a"), Some(3));
    assert_eq!(names.get("b"), Some(2));
    assert_eq!(names.get("c"), None);
}

use demoparser::other_netmessages::EconItemPreview;
use demoparser::other_netmessages::EndOfMatchMessage;
use demoparser::other_netmessages::EndOfMatchPlayer;
use demoparser::other_netmessages::ItemDropsMessage;
use demoparser::parser_state::ItemNameTables;
use demoparser::parser_state::PropController;
use demoparser::parser_state::PropNames;
use demoparser::parser_state::ResourceBudget;
use demoparser::parser_state::SecondPassParser;
use demoparser::read_bits::DemoParserError;
use std::collections::HashMap;

fn parser(max_retained: usize) -> SecondPassParser {
    let mut weapons = HashMap::new();
    weapons.insert(7, "ak47".to_string());
    let mut paint_kits = HashMap::new();
    paint_kits.insert(44, "case_hardened".to_string());
    SecondPassParser {
        prop_controller: PropController { world_actors: false, name_to_id: PropNames::new() },
        entities: Vec::new(),
        players: HashMap::new(),
        userid_to_entity: HashMap::new(),
        resource_budget: ResourceBudget {
            retained_message_bytes: 0,
            max_retained_message_bytes: max_retained,
        },
        item_drops: Vec::new(),
        skins: Vec::new(),
        player_end_data: Vec::new(),
        item_names: ItemNameTables { weapons, paint_kits },
    }
}

fn preview(itemid: Option<u64>, defindex: Option<u32>, paintindex: Option<u32>) -> EconItemPreview {
    EconItemPreview {
        accountid: Some(5),
        itemid,
        defindex,
        paintindex,
        rarity: Some(1),
        quality: Some(2),
        paintwear: Some(3),
        paintseed: Some(4),
        questid: None,
        dropreason: Some(6),
        customname: Some("mine".to_string()),
        inventory: None,
        entindex: Some(9),
    }
}

#[test]
fn item_drops_are_named_and_budgeted() {
    let mut p = parser(1 << 20);
    let bytes = [0u8; 10];
    let msg = ItemDropsMessage {
        entity_updates: vec![preview(Some(1), Some(7), Some(44)), preview(Some(2), Some(8), None)],
    };
    assert_eq!(p.parse_item_drops(&bytes, Some(msg)), Ok(()));
    assert_eq!(p.item_drops.len(), 2);
    assert_eq!(p.item_drops[0].item_name.as_deref(), Some("ak47"));
    assert_eq!(p.item_drops[0].skin_name.as_deref(), Some("case_hardened"));
    assert_eq!(p.item_drops[0].custom_name.as_deref(), Some("mine"));
    assert_eq!(p.item_drops[0].steamid, None);
    assert_eq!(p.item_drops[1].item_name, None);
    assert_eq!(p.item_drops[1].skin_name, None);
    assert_eq!(p.item_drops[1].item_id, Some(2));
    assert_eq!(
        p.resource_budget.retained_message_bytes,
        2 * std::mem::size_of::<demoparser::parser_state::EconItem>() + 10
    );
}

#[test]
fn undecodable_item_drops_are_malformed() {
    let mut p = parser(1 << 20);
    assert_eq!(p.parse_item_drops(&[1, 2, 3], None), Err(DemoParserError::MalformedMessage));
    assert_eq!(p.resource_budget.retained_message_bytes, 0);
}

#[test]
fn item_drops_over_budget_keep_nothing() {
    let mut p = parser(16);
    let msg = ItemDropsMessage { entity_updates: vec![preview(Some(1), None, None)] };
    assert_eq!(
        p.parse_item_drops(&[0u8; 4], Some(msg)),
        Err(DemoParserError::ResourceLimitExceeded("retained message data exceeds limit"))
    );
    assert!(p.item_drops.is_empty());
    assert_eq!(p.resource_budget.retained_message_bytes, 0);
}

#[test]
fn end_of_match_keeps_players_and_real_items() {
    let mut p = parser(1 << 20);
    let msg = EndOfMatchMessage {
        allplayerdata: vec![
            EndOfMatchPlayer {
                xuid: Some(100),
                name: Some("a".to_string()),
                teamnumber: Some(2),
                items: vec![preview(Some(0), Some(7), None), preview(Some(5), Some(7), Some(44))],
            },
            EndOfMatchPlayer {
                xuid: Some(200),
                name: None,
                teamnumber: Some(3),
                items: vec![preview(None, None, None), preview(Some(6), None, None)],
            },
        ],
    };
    assert_eq!(p.parse_player_end_msg(&[0u8; 3], Some(msg)), Ok(()));
    assert_eq!(p.player_end_data.len(), 2);
    assert_eq!(p.player_end_data[0].name.as_deref(), Some("a"));
    assert_eq!(p.player_end_data[0].steamid, Some(100));
    assert_eq!(p.player_end_data[1].team_number, Some(3));
    assert_eq!(p.skins.len(), 2);
    assert_eq!(p.skins[0].item_id, Some(5));
    assert_eq!(p.skins[0].steamid, Some(100));
    assert_eq!(p.skins[0].skin_name.as_deref(), Some("case_hardened"));
    assert_eq!(p.skins[1].item_id, Some(6));
    assert_eq!(p.skins[1].steamid, Some(200));
    assert_eq!(
        p.resource_budget.retained_message_bytes,
        2 * std::mem::size_of::<demoparser::parser_state::PlayerEndMetaData>()
            + 4 * std::mem::size_of::<demoparser::parser_state::EconItem>()
            + 3
    );
}

#[test]
fn end_of_match_errors() {
    let mut p = parser(1 << 20);
    assert_eq!(p.parse_player_end_msg(&[], None), Err(DemoParserError::MalformedMessage));
    let mut small = parser(8);
    let msg = EndOfMatchMessage {
        allplayerdata: vec![EndOfMatchPlayer { xuid: None, name: None, teamnumber: None, items: vec![] }],
    };
    assert_eq!(
        small.parse_player_end_msg(&[0u8; 1], Some(msg)),
        Err(DemoParserError::ResourceLimitExceeded("retained message data exceeds limit"))
    );
    assert!(small.player_end_data.is_empty());
}

#[test]
fn unused_messages_are_accepted() {
    let mut p = parser(0);
    assert_eq!(p.parse_player_stats_update(&[1, 2]), Ok(()));
    assert_eq!(p.parse_file_info(&[]), Ok(()));
}

#[test]
fn budget_reservations_add_up() {
    let mut budget = ResourceBudget { retained_message_bytes: 10, max_retained_message_bytes: 20 };
    assert_eq!(budget.reserve_retained_message_bytes(10), Ok(()));
    assert_eq!(budget.retained_message_bytes, 20);
    assert!(budget.reserve_retained_message_bytes(1).is_err());
    assert!(budget.reserve_retained_message_bytes(usize::MAX).is_err());
    assert_eq!(budget.retained_message_bytes, 20);
}

#[test]
fn preview_item_id_defaults_to_zero() {
    assert_eq!(preview(None, None, None).itemid(), 0);
    assert_eq!(preview(Some(12), None, None).itemid(), 12);
}

#[test]
fn recording_needs_the_reservation() {
    let mut p = parser(1 << 20);
    let items = vec![preview(Some(1), Some(7), None)];
    assert_eq!(p.record_item_drops(&items, false), Err(DemoParserError::VectorResizeFailure));
    assert!(p.item_drops.is_empty());
    assert_eq!(p.record_item_drops(&items, true), Ok(()));
    assert_eq!(p.item_drops.len(), 1);
    assert_eq!(p.item_drops[0].item_name.as_deref(), Some("ak47"));

    let players = vec![EndOfMatchPlayer {
        xuid: Some(1),
        name: None,
        teamnumber: None,
        items: vec![preview(Some(3), None, None)],
    }];
    assert_eq!(
        p.record_player_end_data(&players, true, false),
        Err(DemoParserError::VectorResizeFailure)
    );
    assert_eq!(
        p.record_player_end_data(&players, false, true),
        Err(DemoParserError::VectorResizeFailure)
    );
    assert!(p.player_end_data.is_empty() && p.skins.is_empty());
    assert_eq!(p.record_player_end_data(&players, true, true), Ok(()));
    assert_eq!(p.player_end_data.len(), 1);
    assert_eq!(p.skins.len(), 1);
    assert_eq!(p.skins[0].steamid, Some(1));
}

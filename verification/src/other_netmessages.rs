//! Item drops and end-of-match player data: the decoded messages are checked
//! against the retained-data budget, then turned into item and player records.
use crate::parser_state::EconItem;
use crate::parser_state::ItemNameTables;
use crate::parser_state::PlayerEndMetaData;
use crate::parser_state::SecondPassParser;
use crate::read_bits::DemoParserError;
use std::collections::HashMap;
use vstd::prelude::*;

verus! {

broadcast use vstd::std_specs::hash::group_hash_axioms;

/// The schema that describes a networked class's fields, by name.
pub struct Serializer {
    pub name: String,
}

/// A networked class: its id, name and serializer.
pub struct Class {
    pub class_id: i32,
    pub name: String,
    pub serializer: Serializer,
}

/// The fields of an economy item preview that the parser keeps.
pub struct EconItemPreview {
    pub accountid: Option<u32>,
    pub itemid: Option<u64>,
    pub defindex: Option<u32>,
    pub paintindex: Option<u32>,
    pub rarity: Option<u32>,
    pub quality: Option<u32>,
    pub paintwear: Option<u32>,
    pub paintseed: Option<u32>,
    pub questid: Option<u32>,
    pub dropreason: Option<u32>,
    pub customname: Option<String>,
    pub inventory: Option<u32>,
    pub entindex: Option<i32>,
}

impl EconItemPreview {
    /// The item id, 0 when absent.
    pub fn itemid(&self) -> (r: u64)
        ensures
            r == self.itemid.unwrap_or(0),
    {
        self.itemid.unwrap_or(0)
    }
}

/// A decoded item-drops message.
pub struct ItemDropsMessage {
    pub entity_updates: Vec<EconItemPreview>,
}

/// One player of a decoded end-of-match message.
pub struct EndOfMatchPlayer {
    pub xuid: Option<u64>,
    pub name: Option<String>,
    pub teamnumber: Option<i32>,
    pub items: Vec<EconItemPreview>,
}

/// A decoded end-of-match message.
pub struct EndOfMatchMessage {
    pub allplayerdata: Vec<EndOfMatchPlayer>,
}

/// The entry of `table` under `index`, or under `u32::MAX` when there is no index.
pub open spec fn name_for(table: Map<u32, String>, index: Option<u32>) -> Option<String> {
    let key = index.unwrap_or(u32::MAX);
    if table.contains_key(key) {
        Some(table[key])
    } else {
        None
    }
}

/// The record kept for a player of an end-of-match message.
pub open spec fn player_end_meta(p: EndOfMatchPlayer) -> PlayerEndMetaData {
    PlayerEndMetaData { name: p.name, steamid: p.xuid, team_number: p.teamnumber }
}

/// How many items the players of an end-of-match message hold in all.
pub open spec fn total_items(players: Seq<EndOfMatchPlayer>) -> nat
    decreases players.len(),
{
    if players.len() == 0 {
        0
    } else {
        total_items(players.drop_last()) + players.last().items@.len()
    }
}

/// The retained-size accounting of an end-of-match message overflows `usize`.
pub open spec fn end_msg_size_overflows(players: Seq<EndOfMatchPlayer>, bytes_len: nat) -> bool {
    total_items(players) > usize::MAX || players.len() * vstd::layout::size_of::<PlayerEndMetaData>()
        + total_items(players) * vstd::layout::size_of::<EconItem>() + bytes_len > usize::MAX
}

/// The bytes an end-of-match message keeps: its player and item records and its encoding.
pub open spec fn end_msg_retained(players: Seq<EndOfMatchPlayer>, bytes_len: nat) -> nat {
    players.len() * vstd::layout::size_of::<PlayerEndMetaData>() + total_items(players)
        * vstd::layout::size_of::<EconItem>() + bytes_len
}

/// The item total of a prefix never exceeds the whole total.
pub proof fn lemma_total_items_prefix_bound(players: Seq<EndOfMatchPlayer>, k: nat)
    requires
        k <= players.len(),
    ensures
        total_items(players.take(k as int)) <= total_items(players),
    decreases players.len() - k,
{
    if k < players.len() {
        lemma_total_items_prefix_bound(players, k + 1);
        assert(players.take(k + 1 as int).drop_last() =~= players.take(k as int));
    } else {
        assert(players.take(k as int) =~= players);
    }
}

/// A copy of an optional string.
fn clone_opt_string(s: &Option<String>) -> (r: Option<String>)
    ensures
        r == *s,
{
    match s {
        Some(v) => Some(v.clone()),
        None => None,
    }
}

/// The entry of `table` under `index` (or `u32::MAX`), copied.
fn lookup_name(table: &HashMap<u32, String>, index: Option<u32>) -> (r: Option<String>)
    ensures
        r == name_for(table@, index),
{
    match table.get(&index.unwrap_or(u32::MAX)) {
        Some(name) => Some(name.clone()),
        None => None,
    }
}

/// `rec` keeps every field of the preview `item` under the same meaning, and
/// is owned by `owner`.
pub open spec fn copies_preview(rec: EconItem, item: EconItemPreview, owner: Option<u64>) -> bool {
    &&& rec.account_id == item.accountid
    &&& rec.item_id == item.itemid
    &&& rec.def_index == item.defindex
    &&& rec.paint_index == item.paintindex
    &&& rec.rarity == item.rarity
    &&& rec.quality == item.quality
    &&& rec.paint_wear == item.paintwear
    &&& rec.paint_seed == item.paintseed
    &&& rec.quest_id == item.questid
    &&& rec.dropreason == item.dropreason
    &&& rec.custom_name == item.customname
    &&& rec.inventory == item.inventory
    &&& rec.ent_idx == item.entindex
    &&& rec.steamid == owner
}

impl ItemNameTables {
    /// The record of an item preview, owned by `steamid`.
    pub open spec fn econ_item_of(&self, item: EconItemPreview, steamid: Option<u64>) -> EconItem {
        EconItem {
            account_id: item.accountid,
            item_id: item.itemid,
            def_index: item.defindex,
            paint_index: item.paintindex,
            rarity: item.rarity,
            quality: item.quality,
            paint_seed: item.paintseed,
            paint_wear: item.paintwear,
            quest_id: item.questid,
            dropreason: item.dropreason,
            custom_name: item.customname,
            inventory: item.inventory,
            ent_idx: item.entindex,
            steamid: steamid,
            item_name: name_for(self.weapons@, item.defindex),
            skin_name: name_for(self.paint_kits@, item.paintindex),
        }
    }

    /// The records of the items with a nonzero id, owned by `steamid`.
    pub open spec fn kept_skins(&self, items: Seq<EconItemPreview>, steamid: Option<u64>) -> Seq<
        EconItem,
    >
        decreases items.len(),
    {
        if items.len() == 0 {
            Seq::empty()
        } else {
            let prev = self.kept_skins(items.drop_last(), steamid);
            if items.last().itemid.unwrap_or(0) != 0 {
                prev.push(self.econ_item_of(items.last(), steamid))
            } else {
                prev
            }
        }
    }

    /// The skin records of all players, player by player.
    pub open spec fn end_skins(&self, players: Seq<EndOfMatchPlayer>) -> Seq<EconItem>
        decreases players.len(),
    {
        if players.len() == 0 {
            Seq::empty()
        } else {
            self.end_skins(players.drop_last()) + self.kept_skins(
                players.last().items@,
                players.last().xuid,
            )
        }
    }
}

/// Each record in `recs` copies an item with a nonzero id held by one of
/// `players`, and is owned by that player.
pub open spec fn records_copy_player_items(recs: Seq<EconItem>, players: Seq<EndOfMatchPlayer>) -> bool {
    forall|k: int|
        0 <= k < recs.len() ==> exists|i: int, j: int|
            0 <= i < players.len() && 0 <= j < players[i].items@.len()
                && players[i].items@[j].itemid.unwrap_or(0) != 0 && copies_preview(
                #[trigger] recs[k],
                players[i].items@[j],
                players[i].xuid,
            )
}

/// Every item with a nonzero id held by one of `players` has a record in
/// `recs` that copies it, owned by that player.
pub open spec fn player_items_recorded(recs: Seq<EconItem>, players: Seq<EndOfMatchPlayer>) -> bool {
    forall|i: int, j: int|
        0 <= i < players.len() && 0 <= j < players[i].items@.len()
            && #[trigger] players[i].items@[j].itemid != Some(0u64)
            && players[i].items@[j].itemid is Some ==> exists|k: int|
            0 <= k < recs.len() && copies_preview(recs[k], players[i].items@[j], players[i].xuid)
}

/// Every item record keeps the fields of the preview it was made from, and
/// its owner.
pub proof fn law_item_record_copies_preview(
    tables: ItemNameTables,
    item: EconItemPreview,
    owner: Option<u64>,
)
    ensures
        copies_preview(tables.econ_item_of(item, owner), item, owner),
{
}

/// Each skin record of a player's items copies one of that player's items
/// with a nonzero id, owned by that player.
pub proof fn law_kept_skins_copy_previews(
    tables: ItemNameTables,
    items: Seq<EconItemPreview>,
    owner: Option<u64>,
)
    ensures
        tables.kept_skins(items, owner).len() <= items.len(),
        forall|k: int|
            0 <= k < tables.kept_skins(items, owner).len() ==> exists|j: int|
                0 <= j < items.len() && items[j].itemid.unwrap_or(0) != 0 && copies_preview(
                    #[trigger] tables.kept_skins(items, owner)[k],
                    items[j],
                    owner,
                ),
        forall|j: int|
            0 <= j < items.len() && #[trigger] items[j].itemid != Some(0u64)
                && items[j].itemid is Some ==> exists|k: int|
                0 <= k < tables.kept_skins(items, owner).len() && copies_preview(
                    tables.kept_skins(items, owner)[k],
                    items[j],
                    owner,
                ),
    decreases items.len(),
{
    if items.len() > 0 {
        let init = items.drop_last();
        law_kept_skins_copy_previews(tables, init, owner);
        let kept = tables.kept_skins(items, owner);
        let prev = tables.kept_skins(init, owner);
        assert forall|j: int|
            0 <= j < items.len() && #[trigger] items[j].itemid != Some(0u64)
                && items[j].itemid is Some implies exists|k: int|
            0 <= k < kept.len() && copies_preview(kept[k], items[j], owner) by {
            if j < init.len() {
                assert(init[j] == items[j]);
                let k = choose|k: int| 0 <= k < prev.len() && copies_preview(prev[k], init[j], owner);
                assert(kept[k] == prev[k]);
            } else {
                assert(items[j] == items.last());
                assert(kept[prev.len() as int] == tables.econ_item_of(items.last(), owner));
            }
        }
        assert forall|k: int| 0 <= k < kept.len() implies exists|j: int|
            0 <= j < items.len() && items[j].itemid.unwrap_or(0) != 0 && copies_preview(
                #[trigger] kept[k],
                items[j],
                owner,
            ) by {
            let prev = tables.kept_skins(init, owner);
            if k < prev.len() {
                let j = choose|j: int|
                    0 <= j < init.len() && init[j].itemid.unwrap_or(0) != 0 && copies_preview(
                        #[trigger] prev[k],
                        init[j],
                        owner,
                    );
                assert(items[j] == init[j]);
            } else {
                assert(kept[k] == tables.econ_item_of(items.last(), owner));
                assert(items[items.len() - 1] == items.last());
            }
        }
    }
}

/// Each end-of-match skin record copies an item with a nonzero id held by
/// one of the players, and is owned by that player.
pub proof fn law_end_skins_copy_previews(tables: ItemNameTables, players: Seq<EndOfMatchPlayer>)
    ensures
        records_copy_player_items(tables.end_skins(players), players),
        player_items_recorded(tables.end_skins(players), players),
    decreases players.len(),
{
    if players.len() > 0 {
        let init = players.drop_last();
        let last = players.last();
        law_end_skins_copy_previews(tables, init);
        law_kept_skins_copy_previews(tables, last.items@, last.xuid);
        let all = tables.end_skins(players);
        let prev = tables.end_skins(init);
        let kept = tables.kept_skins(last.items@, last.xuid);
        assert(all == prev + kept);
        assert forall|k: int| 0 <= k < all.len() implies exists|i: int, j: int|
            0 <= i < players.len() && 0 <= j < players[i].items@.len()
                && players[i].items@[j].itemid.unwrap_or(0) != 0 && copies_preview(
                #[trigger] all[k],
                players[i].items@[j],
                players[i].xuid,
            ) by {
            if k < prev.len() {
                assert(all[k] == prev[k]);
                let (i, j) = choose|i: int, j: int|
                    0 <= i < init.len() && 0 <= j < init[i].items@.len()
                        && init[i].items@[j].itemid.unwrap_or(0) != 0 && copies_preview(
                        #[trigger] prev[k],
                        init[i].items@[j],
                        init[i].xuid,
                    );
                assert(players[i] == init[i]);
            } else {
                assert(all[k] == kept[k - prev.len()]);
                let j = choose|j: int|
                    0 <= j < last.items@.len() && last.items@[j].itemid.unwrap_or(0) != 0
                        && copies_preview(#[trigger] kept[k - prev.len()], last.items@[j], last.xuid);
                assert(players[players.len() - 1] == last);
            }
        }
        assert forall|i: int, j: int|
            0 <= i < players.len() && 0 <= j < players[i].items@.len()
                && #[trigger] players[i].items@[j].itemid != Some(0u64)
                && players[i].items@[j].itemid is Some implies exists|k: int|
            0 <= k < all.len() && copies_preview(all[k], players[i].items@[j], players[i].xuid) by {
            if i < init.len() {
                assert(init[i] == players[i]);
                assert(init[i].items@[j].itemid.unwrap_or(0) != 0);
                let k = choose|k: int|
                    0 <= k < prev.len() && copies_preview(prev[k], init[i].items@[j], init[i].xuid);
                assert(all[k] == prev[k]);
            } else {
                assert(players[i] == last);
                assert(last.items@[j].itemid.unwrap_or(0) != 0);
                let k = choose|k: int|
                    0 <= k < kept.len() && copies_preview(kept[k], last.items@[j], last.xuid);
                assert(all[prev.len() + k] == kept[k]);
            }
        }
    }
}

/// Skins appended after `before` are the end-of-match records of `players`,
/// and so copy those players' items, all of those with a nonzero id.
proof fn lemma_appended_skins(
    before: Seq<EconItem>,
    tables: ItemNameTables,
    players: Seq<EndOfMatchPlayer>,
    after: Seq<EconItem>,
)
    requires
        after == before + tables.end_skins(players),
    ensures
        after.len() >= before.len(),
        records_copy_player_items(after.skip(before.len() as int), players),
        player_items_recorded(after.skip(before.len() as int), players),
{
    law_end_skins_copy_previews(tables, players);
    assert(after.skip(before.len() as int) =~= tables.end_skins(players));
}

impl SecondPassParser {
    /// Everything but the budget and the collected records is as in `other`.
    pub open spec fn same_tables(&self, other: SecondPassParser) -> bool {
        &&& self.prop_controller == other.prop_controller
        &&& self.entities == other.entities
        &&& self.players == other.players
        &&& self.userid_to_entity == other.userid_to_entity
        &&& self.item_names == other.item_names
        &&& self.resource_budget.max_retained_message_bytes
            == other.resource_budget.max_retained_message_bytes
    }

    /// The record of an item preview, owned by `steamid`.
    fn make_econ_item(&self, item: &EconItemPreview, steamid: Option<u64>) -> (r: EconItem)
        ensures
            r == self.item_names.econ_item_of(*item, steamid),
            copies_preview(r, *item, steamid),
    {
        let item_name = lookup_name(&self.item_names.weapons, item.defindex);
        let skin_name = lookup_name(&self.item_names.paint_kits, item.paintindex);
        EconItem {
            account_id: item.accountid,
            item_id: item.itemid,
            def_index: item.defindex,
            paint_index: item.paintindex,
            rarity: item.rarity,
            quality: item.quality,
            paint_seed: item.paintseed,
            paint_wear: item.paintwear,
            quest_id: item.questid,
            dropreason: item.dropreason,
            custom_name: clone_opt_string(&item.customname),
            inventory: item.inventory,
            ent_idx: item.entindex,
            steamid,
            item_name,
            skin_name,
        }
    }

    /// Records the items of an item-drops message. `bytes` is the message as
    /// received and `decoded` its decoding, `None` when it did not decode.
    /// The records, and the bytes, are charged to the retained-data budget
    /// before anything is kept.
    pub fn parse_item_drops(&mut self, bytes: &[u8], decoded: Option<ItemDropsMessage>) -> (r:
        Result<(), DemoParserError>)
        ensures
            final(self).same_tables(*old(self)),
            final(self).skins == old(self).skins,
            final(self).player_end_data == old(self).player_end_data,
            old(self).resource_budget.retained_message_bytes
                <= old(self).resource_budget.max_retained_message_bytes
                ==> final(self).resource_budget.retained_message_bytes
                <= final(self).resource_budget.max_retained_message_bytes,
            decoded is None ==> r == Err::<(), DemoParserError>(DemoParserError::MalformedMessage)
                && *final(self) == *old(self),
            decoded is Some ==> ({
                let items = decoded->0.entity_updates@;
                let retained = items.len() * vstd::layout::size_of::<EconItem>() + bytes@.len();
                let budget = old(self).resource_budget;
                &&& retained > usize::MAX ==> r == Err::<(), DemoParserError>(
                    DemoParserError::ResourceLimitExceeded("retained item data size overflow"),
                ) && *final(self) == *old(self)
                &&& retained <= usize::MAX && budget.retained_message_bytes + retained
                    > budget.max_retained_message_bytes ==> r == Err::<(), DemoParserError>(
                    DemoParserError::ResourceLimitExceeded("retained message data exceeds limit"),
                ) && *final(self) == *old(self)
                &&& retained <= usize::MAX && budget.retained_message_bytes + retained
                    <= budget.max_retained_message_bytes ==> {
                    &&& final(self).resource_budget.retained_message_bytes
                        == budget.retained_message_bytes + retained
                    &&& r is Ok ==> final(self).item_drops@ == old(self).item_drops@
                        + items.map_values(|it: EconItemPreview| old(self).item_names.econ_item_of(it, None))
                    &&& r is Ok ==> final(self).item_drops@.len() == old(self).item_drops@.len()
                        + items.len() && forall|k: int|
                        0 <= k < items.len() ==> copies_preview(
                            #[trigger] final(self).item_drops@[old(self).item_drops@.len() + k],
                            items[k],
                            None,
                        )
                    &&& r is Err ==> r == Err::<(), DemoParserError>(
                        DemoParserError::VectorResizeFailure,
                    ) && final(self).item_drops@ == old(self).item_drops@
                }
            }),
    {
        let drops = match decoded {
            Some(msg) => msg,
            None => {
                return Err(DemoParserError::MalformedMessage);
            },
        };
        let retained_bytes = match drops.entity_updates.len().checked_mul(
            core::mem::size_of::<EconItem>(),
        ) {
            Some(overhead) => match overhead.checked_add(bytes.len()) {
                Some(total) => total,
                None => {
                    return Err(
                        DemoParserError::ResourceLimitExceeded("retained item data size overflow"),
                    );
                },
            },
            None => {
                proof {
                    assert(drops.entity_updates@.len() * vstd::layout::size_of::<EconItem>()
                        + bytes@.len() > usize::MAX);
                }
                return Err(
                    DemoParserError::ResourceLimitExceeded("retained item data size overflow"),
                );
            },
        };
        match self.resource_budget.reserve_retained_message_bytes(retained_bytes) {
            Ok(()) => {},
            Err(e) => {
                return Err(e);
            },
        }
        let reserved = match self.item_drops.try_reserve(drops.entity_updates.len()) {
            Ok(()) => true,
            Err(_) => false,
        };
        self.record_item_drops(&drops.entity_updates, reserved)
    }

    /// Records the players of an end-of-match message and the items they
    /// hold that have a nonzero id. `bytes` is the message as received and
    /// `decoded` its decoding, `None` when it did not decode. The records, and
    /// the bytes, are charged to the retained-data budget before anything is kept.
    pub fn parse_player_end_msg(&mut self, bytes: &[u8], decoded: Option<EndOfMatchMessage>) -> (r:
        Result<(), DemoParserError>)
        ensures
            final(self).same_tables(*old(self)),
            final(self).item_drops == old(self).item_drops,
            old(self).resource_budget.retained_message_bytes
                <= old(self).resource_budget.max_retained_message_bytes
                ==> final(self).resource_budget.retained_message_bytes
                <= final(self).resource_budget.max_retained_message_bytes,
            decoded is None ==> r == Err::<(), DemoParserError>(DemoParserError::MalformedMessage)
                && *final(self) == *old(self),
            decoded is Some ==> ({
                let players = decoded->0.allplayerdata@;
                let retained = end_msg_retained(players, bytes@.len());
                let budget = old(self).resource_budget;
                &&& end_msg_size_overflows(players, bytes@.len()) ==> r == Err::<
                    (),
                    DemoParserError,
                >(DemoParserError::ResourceLimitExceeded("retained player data size overflow"))
                    && *final(self) == *old(self)
                &&& !end_msg_size_overflows(players, bytes@.len()) && budget.retained_message_bytes
                    + retained > budget.max_retained_message_bytes ==> r == Err::<
                    (),
                    DemoParserError,
                >(DemoParserError::ResourceLimitExceeded("retained message data exceeds limit"))
                    && *final(self) == *old(self)
                &&& !end_msg_size_overflows(players, bytes@.len()) && budget.retained_message_bytes
                    + retained <= budget.max_retained_message_bytes ==> {
                    &&& final(self).resource_budget.retained_message_bytes
                        == budget.retained_message_bytes + retained
                    &&& r is Ok ==> final(self).player_end_data@ == old(self).player_end_data@
                        + players.map_values(|p: EndOfMatchPlayer| player_end_meta(p))
                        && final(self).skins@ == old(self).skins@ + old(self).item_names.end_skins(players)
                    &&& r is Ok ==> final(self).skins@.len() >= old(self).skins@.len()
                        && records_copy_player_items(
                        final(self).skins@.skip(old(self).skins@.len() as int),
                        players,
                    ) && player_items_recorded(
                        final(self).skins@.skip(old(self).skins@.len() as int),
                        players,
                    )
                    &&& r is Err ==> r == Err::<(), DemoParserError>(
                        DemoParserError::VectorResizeFailure,
                    ) && final(self).player_end_data@ == old(self).player_end_data@
                        && final(self).skins@ == old(self).skins@
                }
            }),
    {
        let end_data = match decoded {
            Some(msg) => msg,
            None => {
                return Err(DemoParserError::MalformedMessage);
            },
        };
        let ghost players = end_data.allplayerdata@;
        let mut item_count: usize = 0;
        let mut j: usize = 0;
        while j < end_data.allplayerdata.len()
            invariant
                j <= players.len(),
                players == end_data.allplayerdata@,
                decoded is Some,
                players == decoded->0.allplayerdata@,
                item_count == total_items(players.take(j as int)),
                *self == *old(self),
            decreases players.len() - j,
        {
            proof {
                assert(players.take(j + 1).drop_last() =~= players.take(j as int));
                lemma_total_items_prefix_bound(players, (j + 1) as nat);
            }
            item_count = match item_count.checked_add(end_data.allplayerdata[j].items.len()) {
                Some(total) => total,
                None => {
                    proof {
                        lemma_total_items_prefix_bound(players, players.len());
                        assert(players.take(players.len() as int) =~= players);
                    }
                    return Err(
                        DemoParserError::ResourceLimitExceeded(
                            "retained player data size overflow",
                        ),
                    );
                },
            };
            j += 1;
        }
        proof {
            assert(players.take(players.len() as int) =~= players);
        }
        let retained_bytes = match end_data.allplayerdata.len().checked_mul(
            core::mem::size_of::<PlayerEndMetaData>(),
        ) {
            Some(overhead) => match item_count.checked_mul(core::mem::size_of::<EconItem>()) {
                Some(items) => match overhead.checked_add(items) {
                    Some(o) => match o.checked_add(bytes.len()) {
                        Some(total) => Some(total),
                        None => None,
                    },
                    None => None,
                },
                None => None,
            },
            None => None,
        };
        let retained_bytes = match retained_bytes {
            Some(total) => total,
            None => {
                return Err(
                    DemoParserError::ResourceLimitExceeded("retained player data size overflow"),
                );
            },
        };
        match self.resource_budget.reserve_retained_message_bytes(retained_bytes) {
            Ok(()) => {},
            Err(e) => {
                return Err(e);
            },
        }
        let meta_reserved = match self.player_end_data.try_reserve(end_data.allplayerdata.len()) {
            Ok(()) => true,
            Err(_) => false,
        };
        let skins_reserved = meta_reserved && match self.skins.try_reserve(item_count) {
            Ok(()) => true,
            Err(_) => false,
        };
        self.record_player_end_data(&end_data.allplayerdata, meta_reserved, skins_reserved)
    }

    /// Appends the records of `items`, without an owner, to the item drops
    /// once room for them has been reserved; when the reservation failed,
    /// fails with `VectorResizeFailure` and changes nothing.
    pub fn record_item_drops(&mut self, items: &Vec<EconItemPreview>, reserved: bool) -> (r: Result<
        (),
        DemoParserError,
    >)
        ensures
            reserved ==> r is Ok && final(self).item_drops@ == old(self).item_drops@
                + items@.map_values(|it: EconItemPreview| old(self).item_names.econ_item_of(it, None)),
            reserved ==> final(self).item_drops@.len() == old(self).item_drops@.len() + items@.len()
                && forall|k: int|
                0 <= k < items@.len() ==> copies_preview(
                    #[trigger] final(self).item_drops@[old(self).item_drops@.len() + k],
                    items@[k],
                    None,
                ),
            reserved ==> final(self).same_tables(*old(self)) && final(self).skins == old(
                self,
            ).skins && final(self).player_end_data == old(self).player_end_data
                && final(self).resource_budget == old(self).resource_budget,
            !reserved ==> r == Err::<(), DemoParserError>(DemoParserError::VectorResizeFailure)
                && *final(self) == *old(self),
    {
        if !reserved {
            return Err(DemoParserError::VectorResizeFailure);
        }
        let ghost start = self.item_drops@;
        let ghost all = items@;
        let mut i: usize = 0;
        while i < items.len()
            invariant
                i <= all.len(),
                all == items@,
                self.same_tables(*old(self)),
                self.skins == old(self).skins,
                self.player_end_data == old(self).player_end_data,
                self.resource_budget == old(self).resource_budget,
                self.item_drops@ == start + all.take(i as int).map_values(
                    |it: EconItemPreview| old(self).item_names.econ_item_of(it, None),
                ),
            decreases all.len() - i,
        {
            let item = &items[i];
            let record = self.make_econ_item(item, None);
            self.item_drops.push(record);
            proof {
                assert(all.take(i + 1).map_values(
                    |it: EconItemPreview| old(self).item_names.econ_item_of(it, None),
                ) =~= all.take(i as int).map_values(
                    |it: EconItemPreview| old(self).item_names.econ_item_of(it, None),
                ).push(old(self).item_names.econ_item_of(all[i as int], None)));
            }
            i += 1;
        }
        proof {
            assert(all.take(all.len() as int) =~= all);
        }
        Ok(())
    }

    /// Appends the end-of-match records of `players`, and those of their
    /// items with a nonzero id, once room for both has been reserved; when
    /// either reservation failed, fails with `VectorResizeFailure` and changes
    /// nothing.
    pub fn record_player_end_data(
        &mut self,
        players: &Vec<EndOfMatchPlayer>,
        meta_reserved: bool,
        skins_reserved: bool,
    ) -> (r: Result<(), DemoParserError>)
        ensures
            meta_reserved && skins_reserved ==> r is Ok && final(self).player_end_data@ == old(
                self,
            ).player_end_data@ + players@.map_values(|p: EndOfMatchPlayer| player_end_meta(p))
                && final(self).skins@ == old(self).skins@ + old(self).item_names.end_skins(players@),
            meta_reserved && skins_reserved ==> final(self).skins@.len() >= old(self).skins@.len()
                && records_copy_player_items(
                final(self).skins@.skip(old(self).skins@.len() as int),
                players@,
            ) && player_items_recorded(
                final(self).skins@.skip(old(self).skins@.len() as int),
                players@,
            ),
            meta_reserved && skins_reserved ==> final(self).same_tables(*old(self))
                && final(self).item_drops == old(self).item_drops && final(self).resource_budget
                == old(self).resource_budget,
            !(meta_reserved && skins_reserved) ==> r == Err::<(), DemoParserError>(
                DemoParserError::VectorResizeFailure,
            ) && *final(self) == *old(self),
    {
        if !meta_reserved || !skins_reserved {
            return Err(DemoParserError::VectorResizeFailure);
        }
        let ghost all = players@;
        let ghost meta_start = self.player_end_data@;
        let ghost skins_start = self.skins@;
        let mut pi: usize = 0;
        while pi < players.len()
            invariant
                pi <= all.len(),
                all == players@,
                self.same_tables(*old(self)),
                self.item_drops == old(self).item_drops,
                self.resource_budget == old(self).resource_budget,
                self.player_end_data@ == meta_start + all.take(pi as int).map_values(
                    |p: EndOfMatchPlayer| player_end_meta(p),
                ),
                self.skins@ == skins_start + old(self).item_names.end_skins(all.take(pi as int)),
            decreases all.len() - pi,
        {
            let player = &players[pi];
            self.player_end_data.push(
                PlayerEndMetaData {
                    name: clone_opt_string(&player.name),
                    steamid: player.xuid,
                    team_number: player.teamnumber,
                },
            );
            let ghost items = player.items@;
            let ghost skins_before = self.skins@;
            let mut ii: usize = 0;
            while ii < player.items.len()
                invariant
                    ii <= items.len(),
                    items == player.items@,
                    *player == all[pi as int],
                    self.same_tables(*old(self)),
                    self.item_drops == old(self).item_drops,
                    self.resource_budget == old(self).resource_budget,
                    self.player_end_data@ == meta_start + all.take(pi + 1).map_values(
                        |p: EndOfMatchPlayer| player_end_meta(p),
                    ),
                    self.skins@ == skins_before + old(self).item_names.kept_skins(
                        items.take(ii as int),
                        player.xuid,
                    ),
                decreases items.len() - ii,
            {
                let item = &player.items[ii];
                proof {
                    assert(items.take(ii + 1).drop_last() =~= items.take(ii as int));
                }
                if item.itemid() != 0 {
                    let record = self.make_econ_item(item, player.xuid);
                    self.skins.push(record);
                }
                ii += 1;
            }
            proof {
                assert(items.take(items.len() as int) =~= items);
                assert(all.take(pi + 1).drop_last() =~= all.take(pi as int));
            }
            pi += 1;
        }
        proof {
            assert(all.take(all.len() as int) =~= all);
            lemma_appended_skins(old(self).skins@, old(self).item_names, all, self.skins@);
        }
        Ok(())
    }

    /// Player statistics updates carry nothing this parser keeps.
    pub fn parse_player_stats_update(&mut self, _bytes: &[u8]) -> (r: Result<(), DemoParserError>)
        ensures
            r is Ok,
            *final(self) == *old(self),
    {
        Ok(())
    }

    /// File information carries nothing this parser keeps.
    pub fn parse_file_info(&mut self, _bytes: &[u8]) -> (r: Result<(), DemoParserError>)
        ensures
            r is Ok,
            *final(self) == *old(self),
    {
        Ok(())
    }
}

} // verus!

//! Opt-in world actor identities. Steam IDs remain account IDs; bots use a
//! demo-local controller handle (including its serial), independent of takeover.
use crate::parser_state::PlayerMetaData;
use crate::parser_state::PropCollectionError;
use crate::parser_state::SecondPassParser;
use crate::parser_state::Variant;
use crate::parser_state::VariantValue;
use crate::parser_state::strings_view;
use crate::text::bot_actor_string;
use crate::text::bot_actor_text;
use crate::text::decimal_text;
use crate::text::u64_decimal;
use vstd::prelude::*;

verus! {

broadcast use vstd::std_specs::hash::group_hash_axioms;

/// The bot identity handle of a controller entity: its serial above its
/// 14-bit slot, in 32 bits.
pub open spec fn controller_handle(serial: u32, entity_id: i32) -> u32 {
    (serial << 14u32) | (entity_id as u32)
}

impl SecondPassParser {
    /// The value of the controller property named `name` of `player`, if the
    /// name is known and the controller has it.
    pub open spec fn controller_value_of(&self, player: PlayerMetaData, name: Seq<char>) -> Option<
        VariantValue,
    > {
        if self.prop_controller.name_to_id@.contains_key(name) {
            match self.controller_prop(self.prop_controller.name_to_id@[name], player) {
                Ok(v) => Some(v),
                Err(_) => None,
            }
        } else {
            None
        }
    }

    /// The controller of `player` says it is controlling a bot.
    pub open spec fn controlling_bot(&self, player: PlayerMetaData) -> bool {
        self.controller_value_of(player, "CCSPlayerController.m_bControllingBot"@) == Some(
            VariantValue::Bool(true),
        )
    }

    /// The pawn that a full entity handle names: the slot in its low 14 bits,
    /// provided the entity there has the handle's serial, the slot is not the
    /// invalid one (2047) and a player plays it.
    pub open spec fn pawn_of_handle(&self, handle: u32) -> Option<i32> {
        let id = handle % 0x4000;
        match self.entity_at(id as usize) {
            None => None,
            Some(e) => if id != 2047 && e.serial == handle / 0x4000 && self.players@.contains_key(
                id as i32,
            ) {
                Some(id as i32)
            } else {
                None
            },
        }
    }

    /// The pawn that the player with this pawn id plays is a bot's.
    pub open spec fn is_bot_pawn(&self, pawn: Option<i32>) -> bool {
        pawn matches Some(id) && self.players@.contains_key(id) && self.players@[id].steamid == Some(
            0u64,
        )
    }

    /// The pawn `player` acts through now: the pawn its controller currently
    /// holds while it controls a bot, or when that pawn is a bot's; otherwise its
    /// own playing pawn.
    pub open spec fn current_pawn_of(&self, player: PlayerMetaData) -> Option<i32> {
        let current = match self.controller_value_of(player, "CCSPlayerController.m_hPawn"@) {
            Some(VariantValue::U32(handle)) => self.pawn_of_handle(handle),
            _ => None,
        };
        if self.controlling_bot(player) {
            current
        } else if self.is_bot_pawn(current) {
            current
        } else {
            player.player_entity_id
        }
    }

    /// `player` is an account acting through its own pawn: it has a Steam id,
    /// it is not controlling a bot, its player-pawn handle does not name a
    /// recycled slot, and its current pawn is not a bot's.
    pub open spec fn own_pawn(&self, player: PlayerMetaData) -> bool {
        if player.steamid.unwrap_or(0) == 0 || self.controlling_bot(player) {
            false
        } else if (match self.controller_value_of(player, "CCSPlayerController.m_hPlayerPawn"@) {
            Some(VariantValue::U32(handle)) => match self.entity_at((handle % 0x4000) as usize) {
                Some(e) => e.serial != handle / 0x4000,
                None => false,
            },
            _ => false,
        }) {
            false
        } else {
            !self.is_bot_pawn(self.current_pawn_of(player))
        }
    }

    /// The actor identity of `player`: its Steam id in decimal, or for a bot
    /// `bot:` and its controller's handle.
    pub open spec fn actor_id_of(&self, player: PlayerMetaData) -> Result<
        Seq<char>,
        PropCollectionError,
    > {
        if player.steamid is Some && player.steamid->0 != 0 {
            Ok(decimal_text(player.steamid->0 as nat))
        } else {
            match player.controller_entid {
                None => Err(PropCollectionError::ControllerEntityIdNotSet),
                Some(id) => match self.entity_at(id as usize) {
                    None => Err(PropCollectionError::ControllerEntityIdNotSet),
                    Some(e) => Ok(bot_actor_text(controller_handle(e.serial, e.entity_id))),
                },
            }
        }
    }

    /// The pawn that a game event's pawn reference and user id stand for.
    pub open spec fn event_actor_of(&self, reference: u32, userid: Option<i32>) -> Option<i32> {
        let slot = (reference % 0x800) as i32;
        let resolved = match userid {
            Some(u) => if self.userid_to_entity@.contains_key(u) {
                Some(self.userid_to_entity@[u])
            } else {
                None
            },
            None => None,
        };
        match resolved {
            Some(r) => if r == slot {
                Some(r)
            } else if self.players@.contains_key(r) && self.own_pawn(self.players@[r]) {
                Some(r)
            } else {
                None
            },
            None => if !self.players@.contains_key(slot) {
                None
            } else if userid is Some && self.players@[slot].steamid != Some(0u64) {
                None
            } else {
                match self.controller_value_of(
                    self.players@[slot],
                    "CCSPlayerController.m_hPlayerPawn"@,
                ) {
                    Some(VariantValue::U32(handle)) => if self.pawn_of_handle(handle) == Some(
                        slot,
                    ) {
                        Some(slot)
                    } else {
                        None
                    },
                    _ => None,
                }
            },
        }
    }

    /// `player` is an account whose current pawn is entity `entity_id`.
    pub open spec fn account_acts_through(&self, player: PlayerMetaData, entity_id: i32) -> bool {
        &&& player.steamid is Some
        &&& player.steamid->0 != 0
        &&& self.current_pawn_of(player) == Some(entity_id)
    }

    /// The pawn through which a spotting controller is counted: its current
    /// pawn while it controls a bot, else its own playing pawn.
    pub open spec fn spotting_pawn(&self, controller: PlayerMetaData) -> Option<i32> {
        if self.controlling_bot(controller) {
            self.current_pawn_of(controller)
        } else {
            controller.player_entity_id
        }
    }

    /// The actor identity that a picked spotting controller contributes, if any.
    pub open spec fn spotter_identity(&self, pick: Option<PlayerMetaData>) -> Option<Seq<char>> {
        match pick {
            None => None,
            Some(c) => match self.spotting_pawn(c) {
                None => None,
                Some(pawn) => if self.players@.contains_key(pawn) && self.actor_id_of(
                    self.players@[pawn],
                ) is Ok {
                    Some(self.actor_id_of(self.players@[pawn])->Ok_0)
                } else {
                    None
                },
            },
        }
    }

    /// The identities of the spotters, bit by bit of `mask` from the lowest:
    /// bit `b` set stands for the controller in slot `b + 1`, and `picks[b]` is
    /// the player taken for it.
    pub open spec fn spotted_identities(&self, mask: u32, picks: Seq<Option<PlayerMetaData>>) -> Seq<
        Seq<char>,
    >
        decreases picks.len(),
    {
        if picks.len() == 0 {
            Seq::empty()
        } else {
            let prev = self.spotted_identities(mask, picks.drop_last());
            let b = (picks.len() - 1) as u32;
            if mask & (1u32 << b) != 0 && self.spotter_identity(picks.last()) is Some {
                prev.push(self.spotter_identity(picks.last())->0)
            } else {
                prev
            }
        }
    }

    /// `ids` are the spotter identities for `mask` under some valid choice of
    /// player for each controller slot.
    pub open spec fn is_spotter_list(&self, mask: u32, ids: Seq<Seq<char>>) -> bool {
        exists|picks: Seq<Option<PlayerMetaData>>|
            #![trigger self.spotted_identities(mask, picks)]
            picks.len() == 32 && self.valid_picks(picks) && ids == self.spotted_identities(
                mask,
                picks,
            )
    }

    /// A player whose controller is entity `controller_id`, if there is one.
    pub open spec fn canonical_pick(&self, controller_id: i32) -> Option<PlayerMetaData> {
        if exists|p: PlayerMetaData|
            #![trigger self.players@.values().contains(p)]
            self.players@.values().contains(p) && p.controller_entid == Some(controller_id) {
            Some(
                choose|p: PlayerMetaData|
                    #![trigger self.players@.values().contains(p)]
                    self.players@.values().contains(p) && p.controller_entid == Some(controller_id),
            )
        } else {
            None
        }
    }

    /// The canonical pick is a valid pick.
    pub proof fn lemma_canonical_pick(&self, controller_id: i32)
        ensures
            self.is_controller_pick(controller_id, self.canonical_pick(controller_id)),
    {
        if !(exists|p: PlayerMetaData|
            #![trigger self.players@.values().contains(p)]
            self.players@.values().contains(p) && p.controller_entid == Some(controller_id)) {
            assert forall|k: i32| #[trigger]
                self.players@.contains_key(k) implies self.players@[k].controller_entid != Some(
                controller_id,
            ) by {
                assert(self.players@.values().contains(self.players@[k]));
            }
        }
    }

    /// One choice of player per controller slot `1 ..= n`.
    pub open spec fn valid_picks(&self, picks: Seq<Option<PlayerMetaData>>) -> bool {
        forall|b: int| 0 <= b < picks.len() ==> #[trigger] self.is_controller_pick(
            (b + 1) as i32,
            picks[b],
        )
    }

    /// Whether world actor identities are wanted.
    pub fn world_actors_enabled(&self) -> (r: bool)
        ensures
            r == self.prop_controller.world_actors,
    {
        self.prop_controller.world_actors
    }

    /// Reads the controller property named `name` of `player`.
    pub fn controller_value(&self, player: &PlayerMetaData, name: &str) -> (r: Option<Variant>)
        ensures
            r is Some <==> self.controller_value_of(*player, name@) is Some,
            r matches Some(v) ==> self.controller_value_of(*player, name@) == Some(v@),
    {
        let id = self.prop_controller.name_to_id.get(name)?;
        match self.get_controller_prop(&id, player) {
            Ok(v) => Some(v),
            Err(_) => None,
        }
    }

    /// The actor identity of `player`.
    pub fn actor_id(&self, player: &PlayerMetaData) -> (r: Result<String, PropCollectionError>)
        ensures
            r is Ok <==> self.actor_id_of(*player) is Ok,
            r matches Ok(s) ==> self.actor_id_of(*player) == Ok::<
                Seq<char>,
                PropCollectionError,
            >(s@),
            r matches Err(e) ==> self.actor_id_of(*player) == Err::<
                Seq<char>,
                PropCollectionError,
            >(e),
            player.steamid is Some && player.steamid->0 != 0 ==> (r matches Ok(s) && s@
                == decimal_text(player.steamid->0 as nat)),
    {
        match player.steamid {
            Some(sid) => {
                if sid != 0 {
                    return Ok(u64_decimal(sid));
                }
            },
            None => {},
        }
        let controller = match player.controller_entid {
            Some(id) => match self.entity_ref(id as usize) {
                Some(ent) => ent,
                None => {
                    return Err(PropCollectionError::ControllerEntityIdNotSet);
                },
            },
            None => {
                return Err(PropCollectionError::ControllerEntityIdNotSet);
            },
        };
        Ok(bot_actor_string(controller.serial << 14 | controller.entity_id as u32))
    }

    /// Resolve the full handle, never a recycled entity slot alone.
    pub fn actor_pawn_from_handle(&self, handle: u32) -> (r: Option<i32>)
        ensures
            r == self.pawn_of_handle(handle),
            r matches Some(id) ==> (self.entity_at(id as usize) matches Some(e) && e.serial == handle
                >> 14),
    {
        proof {
            assert((handle & 0x3fff) == handle % 0x4000 && (handle >> 14) == handle / 0x4000)
                by (bit_vector);
        }
        let id = (handle & 0x3fff) as i32;
        let entity = match self.entity_ref(id as usize) {
            Some(e) => e,
            None => {
                return None;
            },
        };
        if id != 2047 && entity.serial == handle >> 14 && self.players.contains_key(&id) {
            Some(id)
        } else {
            None
        }
    }

    /// Game-event pawn references use a different upper-bit encoding from
    /// network handles. Validate the slot against the controller's full handle.
    pub fn actor_from_event_pawn(&self, reference: u32, userid: Option<i32>) -> (r: Option<i32>)
        ensures
            r == self.event_actor_of(reference, userid),
            ({
                userid is Some && !self.userid_to_entity@.contains_key(userid->0) && r is Some
            }) ==> self.players@.contains_key(r->0) && self.players@[r->0].steamid == Some(0u64),
            ({
                &&& userid is Some
                &&& self.userid_to_entity@.contains_key(userid->0)
                &&& self.userid_to_entity@[userid->0] != (reference % 0x800) as i32
                &&& r is Some
            }) ==> r->0 == self.userid_to_entity@[userid->0] && self.own_pawn(
                self.players@[r->0],
            ),
    {
        proof {
            assert((reference & 0x7ff) == reference % 0x800) by (bit_vector);
        }
        let slot = (reference & 0x7ff) as i32;
        let resolved = match userid {
            Some(id) => self.entity_id_from_userid(id),
            None => None,
        };
        if let Some(resolved) = resolved {
            if resolved == slot {
                return Some(resolved);
            }
            // Lingering inferno damage may have no usable pawn reference after
            // the attacker dies. Preserve the ordinary own-account identity;
            // a takeover still requires the event to identify that bot pawn.
            return match self.players.get(&resolved) {
                Some(p) => if self.actor_is_own_pawn(p) {
                    Some(resolved)
                } else {
                    None
                },
                None => None,
            };
        }
        let player = match self.players.get(&slot) {
            Some(p) => p,
            None => {
                return None;
            },
        };
        // Unknown account userid must never fall back to another human.
        if userid.is_some() && player.steamid != Some(0) {
            return None;
        }
        match self.controller_value(player, "CCSPlayerController.m_hPlayerPawn") {
            Some(Variant::U32(handle)) => match self.actor_pawn_from_handle(handle) {
                Some(id) => if id == slot {
                    Some(id)
                } else {
                    None
                },
                None => None,
            },
            _ => None,
        }
    }

    /// The pawn `player` acts through now.
    pub fn current_actor_pawn(&self, player: &PlayerMetaData) -> (r: Option<i32>)
        ensures
            r == self.current_pawn_of(*player),
            !self.controlling_bot(*player) ==> r == player.player_entity_id || self.is_bot_pawn(r),
    {
        let current = match self.controller_value(player, "CCSPlayerController.m_hPawn") {
            Some(Variant::U32(handle)) => self.actor_pawn_from_handle(handle),
            _ => None,
        };
        if matches!(self.controller_value(player, "CCSPlayerController.m_bControllingBot"), Some(Variant::Bool(true))) {
            return current;
        }
        let current_is_bot = match current {
            Some(id) => match self.players.get(&id) {
                Some(p) => p.steamid == Some(0),
                None => false,
            },
            None => false,
        };
        if current_is_bot {
            return current;
        }
        // Dead humans can possess a spectator pawn while their original pawn
        // still owns prior combat (notably assists). Spectator state must not
        // remove that account's identity or replace its playing pawn.
        player.player_entity_id
    }

    /// Whether `player` is an account acting through its own pawn.
    pub fn actor_is_own_pawn(&self, player: &PlayerMetaData) -> (r: bool)
        ensures
            r == self.own_pawn(*player),
            r ==> player.steamid is Some && player.steamid->0 != 0 && !self.controlling_bot(*player)
                && !self.is_bot_pawn(self.current_pawn_of(*player)),
    {
        if player.steamid.unwrap_or(0) == 0 || matches!(self.controller_value(player, "CCSPlayerController.m_bControllingBot"), Some(Variant::Bool(true))) {
            return false;
        }
        if let Some(Variant::U32(handle)) = self.controller_value(
            player,
            "CCSPlayerController.m_hPlayerPawn",
        ) {
            proof {
                assert((handle & 0x3fff) == handle % 0x4000 && (handle >> 14) == handle / 0x4000)
                    by (bit_vector);
            }
            if let Some(entity) = self.entity_ref((handle & 0x3fff) as usize) {
                if entity.serial != handle >> 14 {
                    return false;
                }
            }
        }
        // Also reject a confirmed different actor if a demo lacks the takeover flag.
        let current_is_bot = match self.current_actor_pawn(player) {
            Some(id) => match self.players.get(&id) {
                Some(current) => current.steamid == Some(0),
                None => false,
            },
            None => false,
        };
        !current_is_bot
    }

    /// The Steam id of an account whose current pawn is entity `entity_id`;
    /// which one, if several are, depends on the order the players are walked in.
    pub fn actor_controller_steamid(&self, entity_id: i32) -> (r: Option<u64>)
        ensures
            r matches Some(sid) ==> exists|p: PlayerMetaData|
                #![trigger self.players@.values().contains(p)]
                self.players@.values().contains(p) && self.account_acts_through(p, entity_id)
                    && p.steamid == Some(sid),
            r is None ==> forall|k: i32| #[trigger]
                self.players@.contains_key(k) ==> !self.account_acts_through(
                    self.players@[k],
                    entity_id,
                ),
    {
        let ghost mut seen: Seq<PlayerMetaData> = Seq::empty();
        for player in it: self.players.values()
            invariant
                forall|j: int|
                    0 <= j < seen.len() ==> !self.account_acts_through(#[trigger] seen[j], entity_id),
                it.seq().unref().to_set() == self.players@.values(),
                seen == it.seq().unref().take(it.index()),
                it.index() == it.seq().len() ==> seen.to_set() == self.players@.values(),
        {
            if let Some(sid) = player.steamid {
                if sid != 0 {
                    if self.current_actor_pawn(player) == Some(entity_id) {
                        assert(it.seq().unref()[it.index()] == *player);
                        assert(it.seq().unref().to_set().contains(*player));
                        return Some(sid);
                    }
                }
            }
            proof {
                seen = seen.push(*player);
                assert(seen =~= it.seq().unref().take(it.index() + 1));
                assert(it.index() + 1 == it.seq().len() ==> seen =~= it.seq().unref());
            }
        }
        assert forall|k: i32| #[trigger]
            self.players@.contains_key(k) implies !self.account_acts_through(
            self.players@[k],
            entity_id,
        ) by {
            assert(self.players@.values().contains(self.players@[k]));
            assert(seen.to_set().contains(self.players@[k]));
            let j = choose|j: int| 0 <= j < seen.len() && seen[j] == self.players@[k];
            assert(!self.account_acts_through(seen[j], entity_id));
        }
        None
    }

    /// The actor identities of the players whose controllers have spotted
    /// entity `entity_id`, from its spotted-by mask.
    pub fn actor_spotted_by(&self, entity_id: &i32) -> (r: Result<Variant, PropCollectionError>)
        ensures
            ({
                let names = self.prop_controller.name_to_id@;
                let known = names.contains_key("CCSPlayerPawn.m_bSpottedByMask"@);
                let prop = names["CCSPlayerPawn.m_bSpottedByMask"@];
                &&& !known ==> r == Err::<Variant, PropCollectionError>(
                    PropCollectionError::GetPropFromEntPropNotFound,
                )
                &&& known && self.prop_from_ent(prop, *entity_id) is Err ==> r == Err::<
                    Variant,
                    PropCollectionError,
                >(self.prop_from_ent(prop, *entity_id)->Err_0)
                &&& known && self.prop_from_ent(prop, *entity_id) is Ok && !(self.prop_from_ent(
                    prop,
                    *entity_id,
                )->Ok_0 is U32) ==> r == Err::<Variant, PropCollectionError>(
                    PropCollectionError::SpottedIncorrectVariant,
                )
                &&& known && self.prop_from_ent(prop, *entity_id) is Ok && self.prop_from_ent(
                    prop,
                    *entity_id,
                )->Ok_0 is U32 ==> {
                    r matches Ok(Variant::StringVec(v)) && self.is_spotter_list(
                        self.prop_from_ent(prop, *entity_id)->Ok_0->U32_0,
                        strings_view(v@),
                    )
                }
            }),
    {
        let prop = match self.prop_controller.name_to_id.get("CCSPlayerPawn.m_bSpottedByMask") {
            Some(p) => p,
            None => {
                return Err(PropCollectionError::GetPropFromEntPropNotFound);
            },
        };
        let mask = match self.get_prop_from_ent(&prop, entity_id) {
            Ok(Variant::U32(mask)) => {
                assert(self.prop_from_ent(prop, *entity_id) == Ok::<
                    VariantValue,
                    PropCollectionError,
                >(VariantValue::U32(mask)));
                mask
            },
            Ok(_) => {
                return Err(PropCollectionError::SpottedIncorrectVariant);
            },
            Err(e) => {
                return Err(e);
            },
        };
        let mut actors: Vec<String> = Vec::new();
        let ghost mut picks: Seq<Option<PlayerMetaData>> = Seq::empty();
        for bit in 0..32i32
            invariant
                picks.len() == bit,
                self.valid_picks(picks),
                strings_view(actors@) == self.spotted_identities(mask, picks),
        {
            let ghost before = picks;
            proof {
                self.lemma_canonical_pick((bit + 1) as i32);
                assert(self.spotted_identities(mask, picks.push(None)) == self.spotted_identities(
                    mask,
                    picks,
                )) by {
                    assert(picks.push(None).drop_last() =~= picks);
                }
            }
            proof {
                assert forall|b: int| 0 <= b < picks.len() implies #[trigger] self.is_controller_pick(
                    (b + 1) as i32,
                    picks.push(None)[b],
                ) by {
                    assert(picks.push(None)[b] == picks[b]);
                }
            }
            if mask & (1u32 << bit) == 0 {
                proof {
                    let pick = self.canonical_pick((bit + 1) as i32);
                    assert(picks.push(pick).drop_last() =~= picks);
                    picks = picks.push(pick);
                }
            } else {
                match self.find_user_by_controller_id(bit + 1) {
                    None => {
                        proof {
                            assert(picks.push(None).drop_last() =~= picks);
                            picks = picks.push(None);
                        }
                    },
                    Some(controller) => {
                        proof {
                            assert(picks.push(Some(*controller)).drop_last() =~= picks);
                            picks = picks.push(Some(*controller));
                        }
                        let pawn = if matches!(self.controller_value(controller, "CCSPlayerController.m_bControllingBot"), Some(Variant::Bool(true))) {
                            self.current_actor_pawn(controller)
                        } else {
                            controller.player_entity_id
                        };
                        if let Some(pawn) = pawn {
                            if let Some(p) = self.players.get(&pawn) {
                                if let Ok(actor) = self.actor_id(p) {
                                    proof {
                                        assert(strings_view(actors@.push(actor)) =~= strings_view(
                                            actors@,
                                        ).push(actor@));
                                    }
                                    actors.push(actor);
                                }
                            }
                        }
                    },
                }
            }
        }
        assert(picks.len() == 32);
        assert(self.is_spotter_list(mask, strings_view(actors@)));
        Ok(Variant::StringVec(actors))
    }
}

impl SecondPassParser {
    /// With no user id, a pawn reference resolves to its slot whenever a
    /// player plays that slot and the controller's player-pawn handle names
    /// that very entity, slot and serial, whether the player is a human or a bot.
    pub proof fn law_event_pawn_without_userid(&self, reference: u32, handle: u32)
        requires
            self.players@.contains_key((reference % 0x800) as i32),
            self.controller_value_of(
                self.players@[(reference % 0x800) as i32],
                "CCSPlayerController.m_hPlayerPawn"@,
            ) == Some(VariantValue::U32(handle)),
            handle % 0x4000 == reference % 0x800,
            reference % 0x800 != 2047,
            self.entity_at((reference % 0x800) as usize) matches Some(e) && e.serial == handle
                / 0x4000,
        ensures
            self.event_actor_of(reference, None) == Some((reference % 0x800) as i32),
    {
    }

    /// With no user id, a pawn reference can only resolve to its own slot,
    /// and only when a player plays it whose controller's player-pawn handle
    /// names that entity, slot and serial.
    pub proof fn law_event_pawn_without_userid_is_its_slot(&self, reference: u32)
        ensures
            self.event_actor_of(reference, None) matches Some(id) ==> {
                &&& id == (reference % 0x800) as i32
                &&& self.players@.contains_key(id)
                &&& self.controller_value_of(
                    self.players@[id],
                    "CCSPlayerController.m_hPlayerPawn"@,
                ) matches Some(VariantValue::U32(handle))
                &&& handle % 0x4000 == reference % 0x800
                &&& id != 2047
                &&& self.entity_at(id as usize) matches Some(e)
                &&& e.serial == handle / 0x4000
            },
    {
    }

    /// A user id that names the referenced slot itself resolves to that slot.
    pub proof fn law_event_userid_naming_the_slot(&self, reference: u32, userid: i32)
        requires
            self.userid_to_entity@.contains_key(userid),
            self.userid_to_entity@[userid] == (reference % 0x800) as i32,
        ensures
            self.event_actor_of(reference, Some(userid)) == Some((reference % 0x800) as i32),
    {
    }

    /// A user id that names no entity never resolves to a human: whatever the
    /// reference, the answer is a bot's pawn or nothing.
    pub proof fn law_unknown_userid_never_gives_a_human(&self, reference: u32, userid: i32)
        requires
            !self.userid_to_entity@.contains_key(userid),
        ensures
            self.event_actor_of(reference, Some(userid)) matches Some(id) ==> self.players@.contains_key(id)
                && self.players@[id].steamid == Some(0u64),
    {
    }

    /// Under the spotted-by mask with only bit `b` set, the spotters' list
    /// holds at most the identity contributed for the player picked in slot `b`.
    proof fn lemma_single_spotter(&self, b: u32, picks: Seq<Option<PlayerMetaData>>)
        requires
            b < 32,
            picks.len() <= 32,
        ensures
            self.spotted_identities(1u32 << b, picks) == (if b < picks.len() && self.spotter_identity(
                picks[b as int],
            ) is Some {
                seq![self.spotter_identity(picks[b as int])->0]
            } else {
                Seq::empty()
            }),
        decreases picks.len(),
    {
        if picks.len() > 0 {
            let init = picks.drop_last();
            let n1 = (picks.len() - 1) as u32;
            self.lemma_single_spotter(b, init);
            assert(((1u32 << b) & (1u32 << n1) != 0) == (n1 == b)) by (bit_vector)
                requires
                    b < 32,
                    n1 < 32,
            ;
            if b < init.len() {
                assert(init[b as int] == picks[b as int]);
            }
            assert(picks.last() == picks[n1 as int]);
        }
    }

    /// The only player whose controller is in slot `b + 1` is the pick for bit `b`.
    proof fn lemma_sole_pick(&self, b: u32, c: PlayerMetaData, picks: Seq<Option<PlayerMetaData>>)
        requires
            b < 32,
            picks.len() == 32,
            self.valid_picks(picks),
            self.players@.values().contains(c),
            c.controller_entid == Some((b + 1) as i32),
            forall|k: i32| #[trigger]
                self.players@.contains_key(k) && self.players@[k].controller_entid == Some(
                    (b + 1) as i32,
                ) ==> self.players@[k] == c,
        ensures
            picks[b as int] == Some(c),
    {
        assert(self.is_controller_pick((b as int + 1) as i32, picks[b as int]));
        let k0 = choose|k: i32| self.players@.contains_key(k) && self.players@[k] == c;
        match picks[b as int] {
            Some(p) => {
                let k = choose|k: i32| self.players@.contains_key(k) && self.players@[k] == p;
                assert(self.players@[k].controller_entid == Some((b + 1) as i32));
            },
            None => {
                assert(self.players@.contains_key(k0));
                assert(self.players@[k0].controller_entid == Some((b + 1) as i32));
            },
        }
    }

    /// A spotter controlling a bot is counted as the bot it controls: under a
    /// mask with only its bit set, the list is the identity of the player
    /// whose pawn its `m_hPawn` handle names, not its own.
    pub proof fn law_spotter_controlling_bot_counts_the_bot(
        &self,
        b: u32,
        c: PlayerMetaData,
        handle: u32,
        ids: Seq<Seq<char>>,
    )
        requires
            b < 32,
            self.players@.values().contains(c),
            c.controller_entid == Some((b + 1) as i32),
            forall|k: i32| #[trigger]
                self.players@.contains_key(k) && self.players@[k].controller_entid == Some(
                    (b + 1) as i32,
                ) ==> self.players@[k] == c,
            self.controller_value_of(c, "CCSPlayerController.m_bControllingBot"@) == Some(
                VariantValue::Bool(true),
            ),
            self.controller_value_of(c, "CCSPlayerController.m_hPawn"@) == Some(
                VariantValue::U32(handle),
            ),
            handle % 0x4000 != 2047,
            self.entity_at((handle % 0x4000) as usize) matches Some(e) && e.serial == handle
                / 0x4000,
            self.players@.contains_key((handle % 0x4000) as i32),
            self.actor_id_of(self.players@[(handle % 0x4000) as i32]) is Ok,
            self.is_spotter_list(1u32 << b, ids),
        ensures
            ids == seq![self.actor_id_of(self.players@[(handle % 0x4000) as i32])->Ok_0],
    {
        let picks = choose|picks: Seq<Option<PlayerMetaData>>|
            #![trigger self.spotted_identities(1u32 << b, picks)]
            picks.len() == 32 && self.valid_picks(picks) && ids == self.spotted_identities(
                1u32 << b,
                picks,
            );
        self.lemma_sole_pick(b, c, picks);
        self.lemma_single_spotter(b, picks);
    }

    /// A spotter not controlling a bot is counted as its own playing pawn:
    /// under a mask with only its bit set, the list is that pawn's identity.
    pub proof fn law_spotter_counts_its_own_pawn(
        &self,
        b: u32,
        c: PlayerMetaData,
        pawn: i32,
        ids: Seq<Seq<char>>,
    )
        requires
            b < 32,
            self.players@.values().contains(c),
            c.controller_entid == Some((b + 1) as i32),
            forall|k: i32| #[trigger]
                self.players@.contains_key(k) && self.players@[k].controller_entid == Some(
                    (b + 1) as i32,
                ) ==> self.players@[k] == c,
            self.controller_value_of(c, "CCSPlayerController.m_bControllingBot"@) != Some(
                VariantValue::Bool(true),
            ),
            c.player_entity_id == Some(pawn),
            self.players@.contains_key(pawn),
            self.actor_id_of(self.players@[pawn]) is Ok,
            self.is_spotter_list(1u32 << b, ids),
        ensures
            ids == seq![self.actor_id_of(self.players@[pawn])->Ok_0],
    {
        let picks = choose|picks: Seq<Option<PlayerMetaData>>|
            #![trigger self.spotted_identities(1u32 << b, picks)]
            picks.len() == 32 && self.valid_picks(picks) && ids == self.spotted_identities(
                1u32 << b,
                picks,
            );
        self.lemma_sole_pick(b, c, picks);
        self.lemma_single_spotter(b, picks);
    }
}

} // verus!

//! The state of the second parsing pass that the actor and end-of-match logic
//! reads and fills: entities with their properties, players, the property
//! names, the retained-data budget, and the collected item and player records.
use crate::read_bits::DemoParserError;
use std::collections::HashMap;
use vstd::prelude::*;

verus! {

broadcast use vstd::std_specs::hash::group_hash_axioms;

/// A decoded property value.
pub enum Variant {
    Bool(bool),
    U32(u32),
    I32(i32),
    U64(u64),
    String(String),
    StringVec(Vec<String>),
}

/// What a `Variant` holds, with strings as character sequences.
pub enum VariantValue {
    Bool(bool),
    U32(u32),
    I32(i32),
    U64(u64),
    String(Seq<char>),
    StringVec(Seq<Seq<char>>),
}

/// The character sequences of a list of strings.
pub open spec fn strings_view(v: Seq<String>) -> Seq<Seq<char>> {
    v.map_values(|s: String| s@)
}

impl View for Variant {
    type V = VariantValue;

    open spec fn view(&self) -> VariantValue {
        match self {
            Variant::Bool(b) => VariantValue::Bool(*b),
            Variant::U32(v) => VariantValue::U32(*v),
            Variant::I32(v) => VariantValue::I32(*v),
            Variant::U64(v) => VariantValue::U64(*v),
            Variant::String(s) => VariantValue::String(s@),
            Variant::StringVec(v) => VariantValue::StringVec(strings_view(v@)),
        }
    }
}

/// Copies a list of strings.
fn clone_strings(v: &Vec<String>) -> (r: Vec<String>)
    ensures
        strings_view(r@) == strings_view(v@),
{
    let mut r: Vec<String> = Vec::new();
    for i in 0..v.len()
        invariant
            r@.len() == i,
            forall|j: int| 0 <= j < i ==> #[trigger] r@[j]@ == v@[j]@,
    {
        r.push(v[i].clone());
    }
    assert(strings_view(r@) =~= strings_view(v@));
    r
}

impl Clone for Variant {
    fn clone(&self) -> (r: Self)
        ensures
            r@ == self@,
    {
        match self {
            Variant::Bool(b) => Variant::Bool(*b),
            Variant::U32(v) => Variant::U32(*v),
            Variant::I32(v) => Variant::I32(*v),
            Variant::U64(v) => Variant::U64(*v),
            Variant::String(s) => Variant::String(s.clone()),
            Variant::StringVec(v) => Variant::StringVec(clone_strings(v)),
        }
    }
}

/// Why a property could not be collected.
#[derive(Debug, Clone, Copy, PartialEq, Eq)]
pub enum PropCollectionError {
    ControllerEntityIdNotSet,
    ControllerEntityNotFound,
    ControllerPropNotFound,
    GetPropFromEntEntityNotFound,
    GetPropFromEntPropNotFound,
    SpottedIncorrectVariant,
}

/// A networked entity: its slot, the serial that tells reuses of the slot
/// apart, its class and its properties by property id.
pub struct Entity {
    pub entity_id: i32,
    pub serial: u32,
    pub cls_id: u32,
    pub props: HashMap<u32, Variant>,
}

/// What is known of a player: the pawn entity it plays, its Steam account id
/// (0 for a bot), its controller entity, its name and team.
pub struct PlayerMetaData {
    pub player_entity_id: Option<i32>,
    pub steamid: Option<u64>,
    pub controller_entid: Option<i32>,
    pub name: Option<String>,
    pub team_num: Option<u32>,
}

/// Property ids by name. Each name occurs at most once.
pub struct PropNames {
    entries: Vec<(String, u32)>,
}

/// The id of the first entry named `name`.
pub open spec fn prop_id_of(entries: Seq<(String, u32)>, name: Seq<char>) -> Option<u32>
    decreases entries.len(),
{
    if entries.len() == 0 {
        None
    } else if entries[0].0@ == name {
        Some(entries[0].1)
    } else {
        prop_id_of(entries.drop_first(), name)
    }
}

/// No name occurs twice among the entries.
pub open spec fn names_unique(entries: Seq<(String, u32)>) -> bool {
    forall|i: int, j: int| 0 <= i < j < entries.len() ==> entries[i].0@ != entries[j].0@
}

/// Index `i` holds the first entry named `name`.
pub open spec fn first_named(entries: Seq<(String, u32)>, name: Seq<char>, i: int) -> bool {
    &&& 0 <= i < entries.len()
    &&& entries[i].0@ == name
    &&& forall|j: int| 0 <= j < i ==> entries[j].0@ != name
}

proof fn lemma_prop_id_of_none(entries: Seq<(String, u32)>, name: Seq<char>)
    ensures
        prop_id_of(entries, name) is None <==> forall|j: int|
            0 <= j < entries.len() ==> entries[j].0@ != name,
    decreases entries.len(),
{
    if entries.len() > 0 {
        let t = entries.drop_first();
        lemma_prop_id_of_none(t, name);
        if prop_id_of(entries, name) is None {
            assert forall|j: int| 0 <= j < entries.len() implies entries[j].0@ != name by {
                if j > 0 {
                    assert(entries[j] == t[j - 1]);
                }
            }
        } else if entries[0].0@ != name {
            let j = choose|j: int| 0 <= j < t.len() && t[j].0@ == name;
            assert(entries[j + 1] == t[j]);
        }
    }
}

proof fn lemma_prop_id_of_first(entries: Seq<(String, u32)>, name: Seq<char>, i: int)
    requires
        first_named(entries, name, i),
    ensures
        prop_id_of(entries, name) == Some(entries[i].1),
    decreases entries.len(),
{
    if i > 0 {
        let t = entries.drop_first();
        assert(entries[0].0@ != name);
        assert forall|j: int| 0 <= j < i - 1 implies t[j].0@ != name by {
            assert(t[j] == entries[j + 1]);
        }
        assert(t[i - 1] == entries[i]);
        lemma_prop_id_of_first(t, name, i - 1);
    }
}

proof fn lemma_prop_id_of_some(entries: Seq<(String, u32)>, name: Seq<char>)
    requires
        prop_id_of(entries, name) is Some,
    ensures
        exists|i: int|
            first_named(entries, name, i) && entries[i].1 == prop_id_of(entries, name)->0,
    decreases entries.len(),
{
    let t = entries.drop_first();
    if entries[0].0@ == name {
        assert(first_named(entries, name, 0));
    } else {
        lemma_prop_id_of_some(t, name);
        let i = choose|i: int| first_named(t, name, i) && t[i].1 == prop_id_of(t, name)->0;
        assert(entries[i + 1] == t[i]);
        assert forall|j: int| 0 <= j < i + 1 implies entries[j].0@ != name by {
            if j > 0 {
                assert(entries[j] == t[j - 1]);
            }
        }
        assert(first_named(entries, name, i + 1));
    }
}

/// Two entry lists with the same names in the same places and the same ids
/// wherever the name is not `keep` give every name but `keep` the same id.
proof fn lemma_prop_id_of_same_names(
    a: Seq<(String, u32)>,
    b: Seq<(String, u32)>,
    keep: Seq<char>,
    name: Seq<char>,
)
    requires
        a.len() <= b.len(),
        forall|j: int| 0 <= j < a.len() ==> #[trigger] b[j].0@ == a[j].0@,
        forall|j: int| 0 <= j < a.len() && a[j].0@ != keep ==> #[trigger] b[j].1 == a[j].1,
        forall|j: int| a.len() <= j < b.len() ==> #[trigger] b[j].0@ == keep,
        name != keep,
    ensures
        prop_id_of(b, name) == prop_id_of(a, name),
{
    lemma_prop_id_of_none(a, name);
    lemma_prop_id_of_none(b, name);
    if prop_id_of(a, name) is Some {
        lemma_prop_id_of_some(a, name);
        let i = choose|i: int| first_named(a, name, i) && a[i].1 == prop_id_of(a, name)->0;
        assert(b[i].0@ == a[i].0@);
        lemma_prop_id_of_first(b, name, i);
    } else {
        assert forall|j: int| 0 <= j < b.len() implies b[j].0@ != name by {
            if j < a.len() {
                assert(b[j].0@ == a[j].0@);
            } else {
                assert(b[j].0@ == keep);
            }
        }
    }
}

impl PropNames {
    #[verifier::type_invariant]
    spec fn names_are_unique(&self) -> bool {
        names_unique(self.entries@)
    }

    /// The index of the entry named `name`.
    fn position(&self, name: &String) -> (r: Option<usize>)
        ensures
            r matches Some(i) ==> first_named(self.entries@, name@, i as int),
            r is None ==> forall|j: int|
                0 <= j < self.entries@.len() ==> self.entries@[j].0@ != name@,
    {
        let mut i: usize = 0;
        while i < self.entries.len()
            invariant
                i <= self.entries@.len(),
                forall|j: int| 0 <= j < i ==> self.entries@[j].0@ != name@,
            decreases self.entries@.len() - i,
        {
            if self.entries[i].0 == *name {
                return Some(i);
            }
            i += 1;
        }
        None
    }

    /// No property names.
    pub fn new() -> (r: PropNames)
        ensures
            r@ == Map::<Seq<char>, u32>::empty(),
    {
        let r = PropNames { entries: Vec::new() };
        assert(r@ =~= Map::<Seq<char>, u32>::empty());
        r
    }

    /// Gives the property named `name` the id `id`, replacing any id it had.
    pub fn insert(&mut self, name: String, id: u32)
        ensures
            final(self)@ == old(self)@.insert(name@, id),
    {
        proof {
            use_type_invariant(&*self);
        }
        let ghost before = self.entries@;
        let ghost key = name@;
        let found = self.position(&name);
        let mut entries: Vec<(String, u32)> = Vec::new();
        std::mem::swap(&mut entries, &mut self.entries);
        match found {
            Some(i) => {
                proof {
                    let upd = before.update(i as int, (name, id));
                    assert forall|a: int, b: int|
                        0 <= a < b < upd.len() implies #[trigger] upd[a].0@ != #[trigger] upd[b].0@ by {
                    }
                }
                entries.set(i, (name, id));
                self.entries = entries;
                proof {
                    let after = self.entries@;
                    assert(first_named(after, key, i as int));
                    lemma_prop_id_of_first(after, key, i as int);
                    lemma_prop_id_of_first(before, key, i as int);
                    assert forall|k: Seq<char>| k != key implies prop_id_of(after, k) == prop_id_of(
                        before,
                        k,
                    ) by {
                        lemma_prop_id_of_same_names(before, after, key, k);
                    }
                    assert(self@ =~= old(self)@.insert(key, id));
                }
            },
            None => {
                entries.push((name, id));
                proof {
                    assert forall|a: int, b: int|
                        0 <= a < b < entries@.len() implies #[trigger] entries@[a].0@
                        != #[trigger] entries@[b].0@ by {}
                }
                self.entries = entries;
                proof {
                    let after = self.entries@;
                    assert(first_named(after, key, before.len() as int));
                    lemma_prop_id_of_first(after, key, before.len() as int);
                    assert forall|k: Seq<char>| k != key implies prop_id_of(after, k) == prop_id_of(
                        before,
                        k,
                    ) by {
                        lemma_prop_id_of_same_names(before, after, key, k);
                    }
                    assert(self@ =~= old(self)@.insert(key, id));
                }
            },
        }
    }

    /// Looks up the id of the property named `name`.
    pub fn get(&self, name: &str) -> (r: Option<u32>)
        ensures
            r is Some <==> self@.contains_key(name@),
            r matches Some(v) ==> self@[name@] == v,
    {
        let wanted = name.to_owned();
        match self.position(&wanted) {
            Some(i) => {
                proof {
                    lemma_prop_id_of_first(self.entries@, name@, i as int);
                }
                Some(self.entries[i].1)
            },
            None => {
                proof {
                    lemma_prop_id_of_none(self.entries@, name@);
                }
                None
            },
        }
    }
}

impl View for PropNames {
    type V = Map<Seq<char>, u32>;

    closed spec fn view(&self) -> Map<Seq<char>, u32> {
        Map::new(
            |k: Seq<char>| prop_id_of(self.entries@, k) is Some,
            |k: Seq<char>| prop_id_of(self.entries@, k)->0,
        )
    }
}

/// Property names and their ids, and whether world actor identities are wanted.
pub struct PropController {
    pub world_actors: bool,
    pub name_to_id: PropNames,
}

/// How many bytes of decoded messages the parser may keep, and how many it keeps.
pub struct ResourceBudget {
    pub retained_message_bytes: usize,
    pub max_retained_message_bytes: usize,
}

impl ResourceBudget {
    /// Takes `bytes` more from the budget, or fails with
    /// `ResourceLimitExceeded` and takes nothing when they do not fit.
    pub fn reserve_retained_message_bytes(&mut self, bytes: usize) -> (r: Result<
        (),
        DemoParserError,
    >)
        ensures
            final(self).max_retained_message_bytes == old(self).max_retained_message_bytes,
            old(self).retained_message_bytes <= old(self).max_retained_message_bytes
                ==> final(self).retained_message_bytes <= final(self).max_retained_message_bytes,
            old(self).retained_message_bytes + bytes <= old(self).max_retained_message_bytes ==> r
                is Ok && final(self).retained_message_bytes == old(self).retained_message_bytes
                + bytes,
            old(self).retained_message_bytes + bytes > old(self).max_retained_message_bytes ==> r
                == Err::<(), DemoParserError>(
                DemoParserError::ResourceLimitExceeded("retained message data exceeds limit"),
            ) && *final(self) == *old(self),
    {
        match self.retained_message_bytes.checked_add(bytes) {
            Some(total) => {
                if total > self.max_retained_message_bytes {
                    return Err(
                        DemoParserError::ResourceLimitExceeded(
                            "retained message data exceeds limit",
                        ),
                    );
                }
                self.retained_message_bytes = total;
                Ok(())
            },
            None => Err(
                DemoParserError::ResourceLimitExceeded("retained message data exceeds limit"),
            ),
        }
    }
}

/// An item record: the fields of an economy item preview, the owner when
/// known, and the weapon and skin names looked up from its indices.
pub struct EconItem {
    pub account_id: Option<u32>,
    pub item_id: Option<u64>,
    pub def_index: Option<u32>,
    pub paint_index: Option<u32>,
    pub rarity: Option<u32>,
    pub quality: Option<u32>,
    pub paint_wear: Option<u32>,
    pub paint_seed: Option<u32>,
    pub quest_id: Option<u32>,
    pub dropreason: Option<u32>,
    pub custom_name: Option<String>,
    pub inventory: Option<u32>,
    pub ent_idx: Option<i32>,
    pub steamid: Option<u64>,
    pub item_name: Option<String>,
    pub skin_name: Option<String>,
}

/// A player as reported at the end of the match.
pub struct PlayerEndMetaData {
    pub name: Option<String>,
    pub steamid: Option<u64>,
    pub team_number: Option<i32>,
}

/// Weapon names by definition index and skin names by paint-kit index.
pub struct ItemNameTables {
    pub weapons: HashMap<u32, String>,
    pub paint_kits: HashMap<u32, String>,
}

/// The state of the second pass.
pub struct SecondPassParser {
    pub prop_controller: PropController,
    pub entities: Vec<Option<Entity>>,
    pub players: HashMap<i32, PlayerMetaData>,
    pub userid_to_entity: HashMap<i32, i32>,
    pub resource_budget: ResourceBudget,
    pub item_drops: Vec<EconItem>,
    pub skins: Vec<EconItem>,
    pub player_end_data: Vec<PlayerEndMetaData>,
    pub item_names: ItemNameTables,
}

impl SecondPassParser {
    /// The entity in slot `idx`, if the slot exists and is occupied.
    pub open spec fn entity_at(&self, idx: usize) -> Option<Entity> {
        if idx < self.entities@.len() {
            self.entities@[idx as int]
        } else {
            None
        }
    }

    /// The entity in slot `idx`, if the slot exists and is occupied.
    pub fn entity_ref(&self, idx: usize) -> (r: Option<&Entity>)
        ensures
            r is None <==> self.entity_at(idx) is None,
            r matches Some(e) ==> self.entity_at(idx) == Some(*e),
    {
        if idx < self.entities.len() {
            match &self.entities[idx] {
                Some(e) => Some(e),
                None => None,
            }
        } else {
            None
        }
    }

    /// The value of property `prop_id` on the controller entity of `player`.
    pub open spec fn controller_prop(&self, prop_id: u32, player: PlayerMetaData) -> Result<
        VariantValue,
        PropCollectionError,
    > {
        match player.controller_entid {
            None => Err(PropCollectionError::ControllerEntityIdNotSet),
            Some(id) => match self.entity_at(id as usize) {
                None => Err(PropCollectionError::ControllerEntityNotFound),
                Some(e) => if e.props@.contains_key(prop_id) {
                    Ok(e.props@[prop_id]@)
                } else {
                    Err(PropCollectionError::ControllerPropNotFound)
                },
            },
        }
    }

    /// Reads property `prop_id` of the controller entity of `player`.
    pub fn get_controller_prop(&self, prop_id: &u32, player: &PlayerMetaData) -> (r: Result<
        Variant,
        PropCollectionError,
    >)
        ensures
            r is Ok <==> self.controller_prop(*prop_id, *player) is Ok,
            r matches Ok(v) ==> self.controller_prop(*prop_id, *player) == Ok::<
                VariantValue,
                PropCollectionError,
            >(v@),
            r matches Err(e) ==> self.controller_prop(*prop_id, *player) == Err::<
                VariantValue,
                PropCollectionError,
            >(e),
    {
        let id = match player.controller_entid {
            Some(id) => id,
            None => {
                return Err(PropCollectionError::ControllerEntityIdNotSet);
            },
        };
        let entity = match self.entity_ref(id as usize) {
            Some(e) => e,
            None => {
                return Err(PropCollectionError::ControllerEntityNotFound);
            },
        };
        match entity.props.get(prop_id) {
            Some(v) => Ok(v.clone()),
            None => Err(PropCollectionError::ControllerPropNotFound),
        }
    }

    /// The value of property `prop_id` on the entity in slot `entity_id`.
    pub open spec fn prop_from_ent(&self, prop_id: u32, entity_id: i32) -> Result<
        VariantValue,
        PropCollectionError,
    > {
        match self.entity_at(entity_id as usize) {
            None => Err(PropCollectionError::GetPropFromEntEntityNotFound),
            Some(e) => if e.props@.contains_key(prop_id) {
                Ok(e.props@[prop_id]@)
            } else {
                Err(PropCollectionError::GetPropFromEntPropNotFound)
            },
        }
    }

    /// Reads property `prop_id` of the entity in slot `entity_id`.
    pub fn get_prop_from_ent(&self, prop_id: &u32, entity_id: &i32) -> (r: Result<
        Variant,
        PropCollectionError,
    >)
        ensures
            r is Ok <==> self.prop_from_ent(*prop_id, *entity_id) is Ok,
            r matches Ok(v) ==> self.prop_from_ent(*prop_id, *entity_id) == Ok::<
                VariantValue,
                PropCollectionError,
            >(v@),
            r matches Err(e) ==> self.prop_from_ent(*prop_id, *entity_id) == Err::<
                VariantValue,
                PropCollectionError,
            >(e),
    {
        let entity = match self.entity_ref(*entity_id as usize) {
            Some(e) => e,
            None => {
                return Err(PropCollectionError::GetPropFromEntEntityNotFound);
            },
        };
        match entity.props.get(prop_id) {
            Some(v) => Ok(v.clone()),
            None => Err(PropCollectionError::GetPropFromEntPropNotFound),
        }
    }

    /// The pawn entity of the player with user id `userid`, if known.
    pub fn entity_id_from_userid(&self, userid: i32) -> (r: Option<i32>)
        ensures
            r == (if self.userid_to_entity@.contains_key(userid) {
                Some(self.userid_to_entity@[userid])
            } else {
                None
            }),
    {
        match self.userid_to_entity.get(&userid) {
            Some(id) => Some(*id),
            None => None,
        }
    }

    /// `pick` is a player whose controller is entity `controller_id`, or, when
    /// there is none, `None`.
    pub open spec fn is_controller_pick(&self, controller_id: i32, pick: Option<PlayerMetaData>) -> bool {
        match pick {
            Some(p) => p.controller_entid == Some(controller_id) && self.players@.values().contains(
                p,
            ),
            None => forall|k: i32| #[trigger]
                self.players@.contains_key(k) ==> self.players@[k].controller_entid != Some(
                    controller_id,
                ),
        }
    }

    /// Finds a player whose controller is entity `controller_id`; which one,
    /// when several are, depends on the order the player table is walked in.
    pub fn find_user_by_controller_id(&self, controller_id: i32) -> (r: Option<&PlayerMetaData>)
        ensures
            self.is_controller_pick(
                controller_id,
                match r {
                    Some(p) => Some(*p),
                    None => None,
                },
            ),
    {
        let ghost mut seen: Seq<PlayerMetaData> = Seq::empty();
        for player in it: self.players.values()
            invariant
                forall|j: int| 0 <= j < seen.len() ==> seen[j].controller_entid != Some(controller_id),
                it.seq().unref().to_set() == self.players@.values(),
                seen == it.seq().unref().take(it.index()),
                it.index() == it.seq().len() ==> seen.to_set() == self.players@.values(),
        {
            if player.controller_entid == Some(controller_id) {
                assert(it.seq().unref()[it.index()] == *player);
                assert(it.seq().unref().to_set().contains(*player));
                return Some(player);
            }
            proof {
                seen = seen.push(*player);
                assert(seen =~= it.seq().unref().take(it.index() + 1));
                assert(it.index() + 1 == it.seq().len() ==> seen =~= it.seq().unref());
            }
        }
        assert forall|k: i32| #[trigger]
            self.players@.contains_key(k) implies self.players@[k].controller_entid != Some(
            controller_id,
        ) by {
            assert(self.players@.values().contains(self.players@[k]));
            assert(seen.to_set().contains(self.players@[k]));
            let j = choose|j: int| 0 <= j < seen.len() && seen[j] == self.players@[k];
        }
        None
    }
}

} // verus!

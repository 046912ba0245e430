//! The snapshot schema: mapping between the typed state model and its JSON
//! wire form, in both directions, with the round-trip and rejection laws.
//!
//! Field names on the wire are lower camel case; enumeration tokens are upper
//! snake case. A cell's `occupier` is untagged: the weapon-bearing shape is
//! tried first, then the shape without a weapon, as the wire format demands.

use vstd::prelude::*;

use crate::json::{
    fields_view, json_view, json_wf, jsons_view, parse_document, print_document,
    spec_parse_document, spec_print, str_ok, Json, JsonV,
};
use crate::model::{
    Cell, CellType, CellWorm, Opponent, OpponentV, OpponentWorm, Player, PlayerV, PlayerWorm,
    Position, Powerup, PowerupType, State, StateV, Weapon,
};
use vstd::string::StrSliceExecFns;

verus! {

/// Why a snapshot document was rejected: not well-formed JSON, or well-formed
/// JSON that does not match the snapshot schema.
#[derive(Clone, Copy, Debug, PartialEq, Eq, Structural)]
pub enum DecodeError {
    Syntax,
    Schema,
}

impl DecodeError {
    /// A human-readable description of the failure.
    pub fn message(&self) -> (m: &'static str)
        ensures
            *self is Syntax ==> m@ == "the document is not well-formed JSON"@,
            *self is Schema ==> m@ == "the document does not match the snapshot schema"@,
    {
        match self {
            DecodeError::Syntax => "the document is not well-formed JSON",
            DecodeError::Schema => "the document does not match the snapshot schema",
        }
    }
}

// ---------------------------------------------------------------------------
// Encoding: model to JSON
// ---------------------------------------------------------------------------

/// Wire form of a position.
pub open spec fn spec_pos_to_json(p: Position) -> JsonV {
    JsonV::Obj(seq![("x"@, JsonV::Num(p.x)), ("y"@, JsonV::Num(p.y))])
}

/// Wire form of a weapon.
pub open spec fn spec_weapon_to_json(w: Weapon) -> JsonV {
    JsonV::Obj(seq![("damage"@, JsonV::Num(w.damage)), ("range"@, JsonV::Num(w.range))])
}

/// Wire token of a terrain type.
pub open spec fn spec_celltype_token(t: CellType) -> Seq<char> {
    match t {
        CellType::Air => "AIR"@,
        CellType::Dirt => "DIRT"@,
        CellType::DeepSpace => "DEEP_SPACE"@,
    }
}

/// Wire form of a powerup.
pub open spec fn spec_powerup_to_json(p: Powerup) -> JsonV {
    JsonV::Obj(
        seq![("type"@, JsonV::Str("HEALTH_PACK"@)), ("value"@, JsonV::Num(p.value))],
    )
}

/// Wire form of a worm of the controlled player.
pub open spec fn spec_player_worm_to_json(w: PlayerWorm) -> JsonV {
    JsonV::Obj(
        seq![
            ("id"@, JsonV::Num(w.id)),
            ("health"@, JsonV::Num(w.health)),
            ("position"@, spec_pos_to_json(w.position)),
            ("diggingRange"@, JsonV::Num(w.digging_range)),
            ("movementRange"@, JsonV::Num(w.movement_range)),
            ("weapon"@, spec_weapon_to_json(w.weapon)),
        ],
    )
}

/// Wire form of an opponent's worm.
pub open spec fn spec_opp_worm_to_json(w: OpponentWorm) -> JsonV {
    JsonV::Obj(
        seq![
            ("id"@, JsonV::Num(w.id)),
            ("health"@, JsonV::Num(w.health)),
            ("position"@, spec_pos_to_json(w.position)),
            ("diggingRange"@, JsonV::Num(w.digging_range)),
            ("movementRange"@, JsonV::Num(w.movement_range)),
        ],
    )
}

/// Wire form of a cell occupier. Only the player-owned shape carries a
/// weapon field; the wire format has no explicit tag.
pub open spec fn spec_cellworm_to_json(w: CellWorm) -> JsonV {
    match w {
        CellWorm::PlayerWorm {
            id,
            player_id,
            health,
            position,
            digging_range,
            movement_range,
            weapon,
        } => JsonV::Obj(
            seq![
                ("id"@, JsonV::Num(id)),
                ("playerId"@, JsonV::Num(player_id)),
                ("health"@, JsonV::Num(health)),
                ("position"@, spec_pos_to_json(position)),
                ("diggingRange"@, JsonV::Num(digging_range)),
                ("movementRange"@, JsonV::Num(movement_range)),
                ("weapon"@, spec_weapon_to_json(weapon)),
            ],
        ),
        CellWorm::OpponentWorm { id, player_id, health, position, digging_range, movement_range } => JsonV::Obj(
            seq![
                ("id"@, JsonV::Num(id)),
                ("playerId"@, JsonV::Num(player_id)),
                ("health"@, JsonV::Num(health)),
                ("position"@, spec_pos_to_json(position)),
                ("diggingRange"@, JsonV::Num(digging_range)),
                ("movementRange"@, JsonV::Num(movement_range)),
            ],
        ),
    }
}

/// Wire form of a grid cell. `occupier` and `powerup` fields appear only
/// when present.
pub open spec fn spec_cell_to_json(c: Cell) -> JsonV {
    let base = seq![
        ("x"@, JsonV::Num(c.x)),
        ("y"@, JsonV::Num(c.y)),
        ("type"@, JsonV::Str(spec_celltype_token(c.cell_type))),
    ];
    let occ: Seq<(Seq<char>, JsonV)> = match c.occupier {
        Some(w) => seq![("occupier"@, spec_cellworm_to_json(w))],
        None => seq![],
    };
    let pw: Seq<(Seq<char>, JsonV)> = match c.powerup {
        Some(p) => seq![("powerup"@, spec_powerup_to_json(p))],
        None => seq![],
    };
    JsonV::Obj(base + occ + pw)
}

/// Wire form of one map row.
pub open spec fn spec_row_to_json(row: Seq<Cell>) -> JsonV {
    JsonV::Arr(row.map_values(|c: Cell| spec_cell_to_json(c)))
}

/// Wire form of the controlled player.
pub open spec fn spec_player_to_json(p: PlayerV) -> JsonV {
    JsonV::Obj(
        seq![
            ("id"@, JsonV::Num(p.id)),
            ("score"@, JsonV::Num(p.score)),
            ("health"@, JsonV::Num(p.health)),
            ("worms"@, JsonV::Arr(p.worms.map_values(|w: PlayerWorm| spec_player_worm_to_json(w)))),
        ],
    )
}

/// Wire form of an opponent summary.
pub open spec fn spec_opponent_to_json(o: OpponentV) -> JsonV {
    JsonV::Obj(
        seq![
            ("id"@, JsonV::Num(o.id)),
            ("score"@, JsonV::Num(o.score)),
            ("worms"@, JsonV::Arr(o.worms.map_values(|w: OpponentWorm| spec_opp_worm_to_json(w)))),
        ],
    )
}

/// Wire form of a whole snapshot.
pub open spec fn spec_state_to_json(v: StateV) -> JsonV {
    JsonV::Obj(
        seq![
            ("currentRound"@, JsonV::Num(v.current_round)),
            ("maxRounds"@, JsonV::Num(v.max_rounds)),
            ("mapSize"@, JsonV::Num(v.map_size)),
            ("currentWormId"@, JsonV::Num(v.current_worm_id)),
            ("consecutiveDoNothingCount"@, JsonV::Num(v.consecutive_do_nothing_count)),
            ("myPlayer"@, spec_player_to_json(v.my_player)),
            ("opponents"@, JsonV::Arr(v.opponents.map_values(|o: OpponentV| spec_opponent_to_json(o)))),
            ("map"@, JsonV::Arr(v.map.map_values(|row: Seq<Cell>| spec_row_to_json(row)))),
        ],
    )
}

/// The full textual encoding of a snapshot.
pub open spec fn spec_encode_state(v: StateV) -> Seq<char> {
    spec_print(spec_state_to_json(v))
}

// ---------------------------------------------------------------------------
// Decoding: JSON to model
// ---------------------------------------------------------------------------

/// The value of the first field named `key`, if any.
pub open spec fn obj_get(fields: Seq<(Seq<char>, JsonV)>, key: Seq<char>) -> Option<JsonV>
    decreases fields.len(),
{
    if fields.len() == 0 {
        None
    } else if fields[0].0 == key {
        Some(fields[0].1)
    } else {
        obj_get(fields.subrange(1, fields.len() as int), key)
    }
}

/// The numeric field named `key`, if present with that type.
pub open spec fn get_num(fields: Seq<(Seq<char>, JsonV)>, key: Seq<char>) -> Option<u32> {
    match obj_get(fields, key) {
        Some(JsonV::Num(n)) => Some(n),
        _ => None,
    }
}

/// The string field named `key`, if present with that type.
pub open spec fn get_str(fields: Seq<(Seq<char>, JsonV)>, key: Seq<char>) -> Option<Seq<char>> {
    match obj_get(fields, key) {
        Some(JsonV::Str(s)) => Some(s),
        _ => None,
    }
}

/// The array field named `key`, if present with that type.
pub open spec fn get_arr(fields: Seq<(Seq<char>, JsonV)>, key: Seq<char>) -> Option<Seq<JsonV>> {
    match obj_get(fields, key) {
        Some(JsonV::Arr(items)) => Some(items),
        _ => None,
    }
}

/// Decode every element of `items`, failing if any element fails.
pub open spec fn decode_each<T>(items: Seq<JsonV>, dec: spec_fn(JsonV) -> Option<T>) -> Option<
    Seq<T>,
>
    decreases items.len(),
{
    if items.len() == 0 {
        Some(Seq::empty())
    } else {
        match (dec(items[0]), decode_each(items.subrange(1, items.len() as int), dec)) {
            (Some(x), Some(rest)) => Some(seq![x] + rest),
            _ => None,
        }
    }
}

/// Decode a position object.
pub open spec fn spec_json_to_pos(j: JsonV) -> Option<Position> {
    match j {
        JsonV::Obj(f) => match (get_num(f, "x"@), get_num(f, "y"@)) {
            (Some(x), Some(y)) => Some(Position { x, y }),
            _ => None,
        },
        _ => None,
    }
}

/// Decode a weapon object.
pub open spec fn spec_json_to_weapon(j: JsonV) -> Option<Weapon> {
    match j {
        JsonV::Obj(f) => match (get_num(f, "damage"@), get_num(f, "range"@)) {
            (Some(damage), Some(range)) => Some(Weapon { damage, range }),
            _ => None,
        },
        _ => None,
    }
}

/// Decode a terrain token. Tokens outside the closed set are rejected.
pub open spec fn spec_token_to_celltype(t: Seq<char>) -> Option<CellType> {
    if t == "AIR"@ {
        Some(CellType::Air)
    } else if t == "DIRT"@ {
        Some(CellType::Dirt)
    } else if t == "DEEP_SPACE"@ {
        Some(CellType::DeepSpace)
    } else {
        None
    }
}

/// Decode a powerup object. The only known token is `HEALTH_PACK`; any other
/// token is rejected.
pub open spec fn spec_json_to_powerup(j: JsonV) -> Option<Powerup> {
    match j {
        JsonV::Obj(f) => match (get_str(f, "type"@), get_num(f, "value"@)) {
            (Some(t), Some(value)) => if t == "HEALTH_PACK"@ {
                Some(Powerup { powerup_type: PowerupType::HealthPack, value })
            } else {
                None
            },
            _ => None,
        },
        _ => None,
    }
}

/// Decode a worm of the controlled player.
pub open spec fn spec_json_to_player_worm(j: JsonV) -> Option<PlayerWorm> {
    match j {
        JsonV::Obj(f) => {
            match (get_num(f, "id"@), get_num(f, "health"@), get_num(f, "diggingRange"@), get_num(f, "movementRange"@)) {
                (Some(id), Some(health), Some(digging_range), Some(movement_range)) => {
                    match (obj_get(f, "position"@), obj_get(f, "weapon"@)) {
                        (Some(pj), Some(wj)) => match (spec_json_to_pos(pj), spec_json_to_weapon(wj)) {
                            (Some(position), Some(weapon)) => Some(
                                PlayerWorm {
                                    id,
                                    health,
                                    position,
                                    digging_range,
                                    movement_range,
                                    weapon,
                                },
                            ),
                            _ => None,
                        },
                        _ => None,
                    }
                },
                _ => None,
            }
        },
        _ => None,
    }
}

/// Decode an opponent's worm.
pub open spec fn spec_json_to_opp_worm(j: JsonV) -> Option<OpponentWorm> {
    match j {
        JsonV::Obj(f) => {
            match (get_num(f, "id"@), get_num(f, "health"@), get_num(f, "diggingRange"@), get_num(f, "movementRange"@)) {
                (Some(id), Some(health), Some(digging_range), Some(movement_range)) => {
                    match obj_get(f, "position"@) {
                        Some(pj) => match spec_json_to_pos(pj) {
                            Some(position) => Some(
                                OpponentWorm { id, health, position, digging_range, movement_range },
                            ),
                            None => None,
                        },
                        None => None,
                    }
                },
                _ => None,
            }
        },
        _ => None,
    }
}

/// Decode a cell occupier: the weapon-bearing shape is tried first, then the
/// shape without a weapon. The trial order makes the structural
/// discrimination deterministic.
pub open spec fn spec_json_to_cellworm(j: JsonV) -> Option<CellWorm> {
    match j {
        JsonV::Obj(f) => {
            match (get_num(f, "id"@), get_num(f, "playerId"@), get_num(f, "health"@), get_num(f, "diggingRange"@), get_num(f, "movementRange"@)) {
                (Some(id), Some(player_id), Some(health), Some(digging_range), Some(movement_range)) => {
                    match obj_get(f, "position"@) {
                        Some(pj) => match spec_json_to_pos(pj) {
                            Some(position) => match obj_get(f, "weapon"@) {
                                Some(wj) => match spec_json_to_weapon(wj) {
                                    Some(weapon) => Some(
                                        CellWorm::PlayerWorm {
                                            id,
                                            player_id,
                                            health,
                                            position,
                                            digging_range,
                                            movement_range,
                                            weapon,
                                        },
                                    ),
                                    None => None,
                                },
                                None => Some(
                                    CellWorm::OpponentWorm {
                                        id,
                                        player_id,
                                        health,
                                        position,
                                        digging_range,
                                        movement_range,
                                    },
                                ),
                            },
                            None => None,
                        },
                        None => None,
                    }
                },
                _ => None,
            }
        },
        _ => None,
    }
}

/// Decode a grid cell. Absent `occupier` or `powerup` fields decode to
/// `None`, never to a placeholder value.
pub open spec fn spec_json_to_cell(j: JsonV) -> Option<Cell> {
    match j {
        JsonV::Obj(f) => {
            match (get_num(f, "x"@), get_num(f, "y"@), get_str(f, "type"@)) {
                (Some(x), Some(y), Some(t)) => match spec_token_to_celltype(t) {
                    Some(cell_type) => {
                        let occ: Option<Option<CellWorm>> = match obj_get(f, "occupier"@) {
                            Some(oj) => match spec_json_to_cellworm(oj) {
                                Some(w) => Some(Some(w)),
                                None => None,
                            },
                            None => Some(None),
                        };
                        let pw: Option<Option<Powerup>> = match obj_get(f, "powerup"@) {
                            Some(pj) => match spec_json_to_powerup(pj) {
                                Some(p) => Some(Some(p)),
                                None => None,
                            },
                            None => Some(None),
                        };
                        match (occ, pw) {
                            (Some(occupier), Some(powerup)) => Some(
                                Cell { x, y, cell_type, occupier, powerup },
                            ),
                            _ => None,
                        }
                    },
                    None => None,
                },
                _ => None,
            }
        },
        _ => None,
    }
}

/// Decode a sequence of cells.
pub open spec fn decode_cells(items: Seq<JsonV>) -> Option<Seq<Cell>> {
    decode_each(items, |cj: JsonV| spec_json_to_cell(cj))
}

/// Decode one map row, which must be an array of cells.
pub open spec fn spec_json_to_row(j: JsonV) -> Option<Seq<Cell>> {
    match j {
        JsonV::Arr(cells) => decode_cells(cells),
        _ => None,
    }
}

/// Decode a sequence of the controlled player's worms.
pub open spec fn decode_player_worms(items: Seq<JsonV>) -> Option<Seq<PlayerWorm>> {
    decode_each(items, |wj: JsonV| spec_json_to_player_worm(wj))
}

/// Decode a sequence of opponent worms.
pub open spec fn decode_opp_worms(items: Seq<JsonV>) -> Option<Seq<OpponentWorm>> {
    decode_each(items, |wj: JsonV| spec_json_to_opp_worm(wj))
}

/// Decode a sequence of opponent summaries.
pub open spec fn decode_opponents(items: Seq<JsonV>) -> Option<Seq<OpponentV>> {
    decode_each(items, |oj: JsonV| spec_json_to_opponent(oj))
}

/// Decode a sequence of map rows.
pub open spec fn decode_rows(items: Seq<JsonV>) -> Option<Seq<Seq<Cell>>> {
    decode_each(items, |rj: JsonV| spec_json_to_row(rj))
}

/// Decode the controlled player.
pub open spec fn spec_json_to_player(j: JsonV) -> Option<PlayerV> {
    match j {
        JsonV::Obj(f) => {
            match (get_num(f, "id"@), get_num(f, "score"@), get_num(f, "health"@), get_arr(f, "worms"@)) {
                (Some(id), Some(score), Some(health), Some(ws)) => {
                    match decode_player_worms(ws) {
                        Some(worms) => Some(PlayerV { id, score, health, worms }),
                        None => None,
                    }
                },
                _ => None,
            }
        },
        _ => None,
    }
}

/// Decode an opponent summary.
pub open spec fn spec_json_to_opponent(j: JsonV) -> Option<OpponentV> {
    match j {
        JsonV::Obj(f) => {
            match (get_num(f, "id"@), get_num(f, "score"@), get_arr(f, "worms"@)) {
                (Some(id), Some(score), Some(ws)) => {
                    match decode_opp_worms(ws) {
                        Some(worms) => Some(OpponentV { id, score, worms }),
                        None => None,
                    }
                },
                _ => None,
            }
        },
        _ => None,
    }
}

/// Decode a whole snapshot. Every field of the schema is required; a missing
/// or wrongly typed field rejects the document.
pub open spec fn spec_json_to_state(j: JsonV) -> Option<StateV> {
    match j {
        JsonV::Obj(f) => {
            match (get_num(f, "currentRound"@), get_num(f, "maxRounds"@), get_num(f, "mapSize"@), get_num(f, "currentWormId"@), get_num(f, "consecutiveDoNothingCount"@)) {
                (Some(current_round), Some(max_rounds), Some(map_size), Some(current_worm_id), Some(consecutive_do_nothing_count)) => {
                    match (obj_get(f, "myPlayer"@), get_arr(f, "opponents"@), get_arr(f, "map"@)) {
                        (Some(pj), Some(os), Some(rows)) => {
                            match (spec_json_to_player(pj), decode_opponents(os), decode_rows(rows)) {
                                (Some(my_player), Some(opponents), Some(map)) => Some(
                                    StateV {
                                        current_round,
                                        max_rounds,
                                        map_size,
                                        current_worm_id,
                                        consecutive_do_nothing_count,
                                        my_player,
                                        opponents,
                                        map,
                                    },
                                ),
                                _ => None,
                            }
                        },
                        _ => None,
                    }
                },
                _ => None,
            }
        },
        _ => None,
    }
}

/// The full decoding of a snapshot document: parse the text, then check it
/// against the schema. The two failure kinds stay distinct.
pub open spec fn spec_decode_state(s: Seq<char>) -> Result<StateV, DecodeError> {
    match spec_parse_document(s) {
        None => Err(DecodeError::Syntax),
        Some(j) => match spec_json_to_state(j) {
            Some(v) => Ok(v),
            None => Err(DecodeError::Schema),
        },
    }
}

// ---------------------------------------------------------------------------
// Executable helpers
// ---------------------------------------------------------------------------

/// Copy the characters of `s` into a vector.
pub fn chars_of_str(s: &str) -> (v: Vec<char>)
    ensures
        v@ == s@,
{
    let n = s.unicode_len();
    let mut v: Vec<char> = Vec::new();
    let mut k: usize = 0;
    while k < n
        invariant
            k <= n,
            n == s@.len(),
            v@ == s@.subrange(0, k as int),
        decreases n - k,
    {
        let ghost before = v@;
        v.push(s.get_char(k));
        proof {
            assert(before.push(s@[k as int]) =~= s@.subrange(0, (k + 1) as int));
        }
        k = k + 1;
    }
    proof {
        assert(s@.subrange(0, s@.len() as int) =~= s@);
    }
    v
}

/// Compare a character vector against a string slice.
fn chars_eq_str(v: &Vec<char>, key: &str) -> (r: bool)
    ensures
        r == (v@ == key@),
{
    let n = key.unicode_len();
    if v.len() != n {
        proof {
            if v@ == key@ {
                assert(v@.len() == key@.len());
            }
        }
        return false;
    }
    let mut k: usize = 0;
    while k < n
        invariant
            k <= n,
            n == key@.len(),
            v@.len() == n,
            forall|t: int| 0 <= t < k ==> v@[t] == key@[t],
        decreases n - k,
    {
        let c = key.get_char(k);
        if v[k] != c {
            proof {
                assert(v@[k as int] != key@[k as int]);
            }
            return false;
        }
        k = k + 1;
    }
    proof {
        assert(v@ =~= key@);
    }
    true
}

/// `fields_view` turns a push into a push.
proof fn lemma_fields_view_push(fs: Seq<(Vec<char>, Json)>, kv: (Vec<char>, Json))
    ensures
        fields_view(fs.push(kv)) =~= fields_view(fs).push((kv.0@, json_view(kv.1))),
    decreases fs.len(),
{
    if fs.len() == 0 {
        assert(fs.push(kv)[0] == kv);
        assert(fs.push(kv).subrange(1, 1) =~= Seq::<(Vec<char>, Json)>::empty());
        assert(fields_view(fs.push(kv).subrange(1, 1)) =~= Seq::<(Seq<char>, JsonV)>::empty());
    } else {
        assert(fs.push(kv).subrange(1, (fs.len() + 1) as int) =~= fs.subrange(1, fs.len() as int).push(kv));
        lemma_fields_view_push(fs.subrange(1, fs.len() as int), kv);
        assert(fs.push(kv)[0] == fs[0]);
    }
}

/// `jsons_view` turns a push into a push.
proof fn lemma_jsons_view_push(items: Seq<Json>, x: Json)
    ensures
        jsons_view(items.push(x)) =~= jsons_view(items).push(json_view(x)),
    decreases items.len(),
{
    if items.len() == 0 {
        assert(items.push(x)[0] == x);
        assert(items.push(x).subrange(1, 1) =~= Seq::<Json>::empty());
        assert(jsons_view(items.push(x).subrange(1, 1)) =~= Seq::<JsonV>::empty());
    } else {
        assert(items.push(x).subrange(1, (items.len() + 1) as int) =~= items.subrange(
            1,
            items.len() as int,
        ).push(x));
        lemma_jsons_view_push(items.subrange(1, items.len() as int), x);
        assert(items.push(x)[0] == items[0]);
    }
}

/// Indexing commutes with `jsons_view`.
proof fn lemma_jsons_view_index(items: Seq<Json>, k: int)
    requires
        0 <= k < items.len(),
    ensures
        jsons_view(items).len() == items.len(),
        jsons_view(items)[k] == json_view(items[k]),
    decreases items.len(),
{
    crate::json::lemma_jsons_view_len(items);
    if k > 0 {
        lemma_jsons_view_index(items.subrange(1, items.len() as int), k - 1);
    }
}

/// The first field of `fields` named `key`, by a linear scan.
fn get_field<'a>(fields: &'a Vec<(Vec<char>, Json)>, key: &str) -> (r: Option<&'a Json>)
    ensures
        match r {
            Some(j) => obj_get(fields_view(fields@), key@) == Some(json_view(*j)),
            None => obj_get(fields_view(fields@), key@) is None,
        },
{
    proof {
        assert(fields@.subrange(0, fields@.len() as int) =~= fields@);
    }
    let mut k: usize = 0;
    while k < fields.len()
        invariant
            k <= fields@.len(),
            obj_get(fields_view(fields@), key@) == obj_get(
                fields_view(fields@.subrange(k as int, fields@.len() as int)),
                key@,
            ),
        decreases fields@.len() - k,
    {
        let ghost sub = fields@.subrange(k as int, fields@.len() as int);
        proof {
            crate::json::lemma_fields_view_len(sub);
            assert(sub[0] == fields@[k as int]);
            assert(sub.subrange(1, sub.len() as int) =~= fields@.subrange(
                (k + 1) as int,
                fields@.len() as int,
            ));
            assert(fields_view(sub)[0] == (fields@[k as int].0@, json_view(fields@[k as int].1)));
            assert(fields_view(sub).subrange(1, fields_view(sub).len() as int) =~= fields_view(
                fields@.subrange((k + 1) as int, fields@.len() as int),
            ));
        }
        if chars_eq_str(&fields[k].0, key) {
            return Some(&fields[k].1);
        }
        k = k + 1;
    }
    proof {
        assert(fields@.subrange(fields@.len() as int, fields@.len() as int) =~= Seq::<
            (Vec<char>, Json),
        >::empty());
        assert(fields_view(fields@.subrange(fields@.len() as int, fields@.len() as int)) =~= Seq::<
            (Seq<char>, JsonV),
        >::empty());
    }
    None
}

/// The numeric field named `key`, if present with that type.
fn get_num_field(fields: &Vec<(Vec<char>, Json)>, key: &str) -> (r: Option<u32>)
    ensures
        r == get_num(fields_view(fields@), key@),
{
    match get_field(fields, key) {
        Some(j) => match j {
            Json::Num(n) => Some(*n),
            _ => None,
        },
        None => None,
    }
}

/// The string field named `key`, if present with that type.
fn get_str_field<'a>(fields: &'a Vec<(Vec<char>, Json)>, key: &str) -> (r: Option<&'a Vec<char>>)
    ensures
        match r {
            Some(s) => get_str(fields_view(fields@), key@) == Some(s@),
            None => get_str(fields_view(fields@), key@) is None,
        },
{
    match get_field(fields, key) {
        Some(j) => match j {
            Json::Str(s) => Some(s),
            _ => None,
        },
        None => None,
    }
}

/// The array field named `key`, if present with that type.
fn get_arr_field<'a>(fields: &'a Vec<(Vec<char>, Json)>, key: &str) -> (r: Option<&'a Vec<Json>>)
    ensures
        match r {
            Some(items) => get_arr(fields_view(fields@), key@) == Some(jsons_view(items@)),
            None => get_arr(fields_view(fields@), key@) is None,
        },
{
    match get_field(fields, key) {
        Some(j) => match j {
            Json::Arr(items) => Some(items),
            _ => None,
        },
        None => None,
    }
}

// ---------------------------------------------------------------------------
// Executable encoding
// ---------------------------------------------------------------------------

/// Append one `key: value` field.
fn push_field(f: &mut Vec<(Vec<char>, Json)>, key: &str, v: Json)
    ensures
        fields_view(final(f)@) =~= fields_view(old(f)@).push((key@, json_view(v))),
{
    let kc = chars_of_str(key);
    let ghost before = f@;
    f.push((kc, v));
    proof {
        lemma_fields_view_push(before, f@[before.len() as int]);
    }
}

/// Encode a position.
fn pos_to_json(p: &Position) -> (j: Json)
    ensures
        j@ == spec_pos_to_json(*p),
{
    let mut f: Vec<(Vec<char>, Json)> = Vec::new();
    proof {
        assert(fields_view(f@) =~= Seq::<(Seq<char>, JsonV)>::empty());
    }
    push_field(&mut f, "x", Json::Num(p.x));
    push_field(&mut f, "y", Json::Num(p.y));
    proof {
        assert(fields_view(f@) =~= seq![("x"@, JsonV::Num(p.x)), ("y"@, JsonV::Num(p.y))]);
    }
    Json::Obj(f)
}

/// Encode a weapon.
fn weapon_to_json(w: &Weapon) -> (j: Json)
    ensures
        j@ == spec_weapon_to_json(*w),
{
    let mut f: Vec<(Vec<char>, Json)> = Vec::new();
    proof {
        assert(fields_view(f@) =~= Seq::<(Seq<char>, JsonV)>::empty());
    }
    push_field(&mut f, "damage", Json::Num(w.damage));
    push_field(&mut f, "range", Json::Num(w.range));
    proof {
        assert(fields_view(f@) =~= seq![
            ("damage"@, JsonV::Num(w.damage)),
            ("range"@, JsonV::Num(w.range)),
        ]);
    }
    Json::Obj(f)
}

/// The wire token of a terrain type.
fn celltype_token(t: &CellType) -> (v: Vec<char>)
    ensures
        v@ == spec_celltype_token(*t),
{
    match t {
        CellType::Air => chars_of_str("AIR"),
        CellType::Dirt => chars_of_str("DIRT"),
        CellType::DeepSpace => chars_of_str("DEEP_SPACE"),
    }
}

/// Encode a powerup.
fn powerup_to_json(p: &Powerup) -> (j: Json)
    ensures
        j@ == spec_powerup_to_json(*p),
{
    let mut f: Vec<(Vec<char>, Json)> = Vec::new();
    proof {
        assert(fields_view(f@) =~= Seq::<(Seq<char>, JsonV)>::empty());
    }
    push_field(&mut f, "type", Json::Str(chars_of_str("HEALTH_PACK")));
    push_field(&mut f, "value", Json::Num(p.value));
    proof {
        assert(fields_view(f@) =~= seq![
            ("type"@, JsonV::Str("HEALTH_PACK"@)),
            ("value"@, JsonV::Num(p.value)),
        ]);
    }
    Json::Obj(f)
}

/// Encode a worm of the controlled player.
fn player_worm_to_json(w: &PlayerWorm) -> (j: Json)
    ensures
        j@ == spec_player_worm_to_json(*w),
{
    let mut f: Vec<(Vec<char>, Json)> = Vec::new();
    proof {
        assert(fields_view(f@) =~= Seq::<(Seq<char>, JsonV)>::empty());
    }
    push_field(&mut f, "id", Json::Num(w.id));
    push_field(&mut f, "health", Json::Num(w.health));
    push_field(&mut f, "position", pos_to_json(&w.position));
    push_field(&mut f, "diggingRange", Json::Num(w.digging_range));
    push_field(&mut f, "movementRange", Json::Num(w.movement_range));
    push_field(&mut f, "weapon", weapon_to_json(&w.weapon));
    proof {
        assert(fields_view(f@) =~= seq![
            ("id"@, JsonV::Num(w.id)),
            ("health"@, JsonV::Num(w.health)),
            ("position"@, spec_pos_to_json(w.position)),
            ("diggingRange"@, JsonV::Num(w.digging_range)),
            ("movementRange"@, JsonV::Num(w.movement_range)),
            ("weapon"@, spec_weapon_to_json(w.weapon)),
        ]);
    }
    Json::Obj(f)
}

/// Encode an opponent's worm.
fn opp_worm_to_json(w: &OpponentWorm) -> (j: Json)
    ensures
        j@ == spec_opp_worm_to_json(*w),
{
    let mut f: Vec<(Vec<char>, Json)> = Vec::new();
    proof {
        assert(fields_view(f@) =~= Seq::<(Seq<char>, JsonV)>::empty());
    }
    push_field(&mut f, "id", Json::Num(w.id));
    push_field(&mut f, "health", Json::Num(w.health));
    push_field(&mut f, "position", pos_to_json(&w.position));
    push_field(&mut f, "diggingRange", Json::Num(w.digging_range));
    push_field(&mut f, "movementRange", Json::Num(w.movement_range));
    proof {
        assert(fields_view(f@) =~= seq![
            ("id"@, JsonV::Num(w.id)),
            ("health"@, JsonV::Num(w.health)),
            ("position"@, spec_pos_to_json(w.position)),
            ("diggingRange"@, JsonV::Num(w.digging_range)),
            ("movementRange"@, JsonV::Num(w.movement_range)),
        ]);
    }
    Json::Obj(f)
}

/// Encode a cell occupier.
fn cellworm_to_json(w: &CellWorm) -> (j: Json)
    ensures
        j@ == spec_cellworm_to_json(*w),
{
    match w {
        CellWorm::PlayerWorm {
            id,
            player_id,
            health,
            position,
            digging_range,
            movement_range,
            weapon,
        } => {
            let mut f: Vec<(Vec<char>, Json)> = Vec::new();
            proof {
                assert(fields_view(f@) =~= Seq::<(Seq<char>, JsonV)>::empty());
            }
            push_field(&mut f, "id", Json::Num(*id));
            push_field(&mut f, "playerId", Json::Num(*player_id));
            push_field(&mut f, "health", Json::Num(*health));
            push_field(&mut f, "position", pos_to_json(position));
            push_field(&mut f, "diggingRange", Json::Num(*digging_range));
            push_field(&mut f, "movementRange", Json::Num(*movement_range));
            push_field(&mut f, "weapon", weapon_to_json(weapon));
            proof {
                assert(fields_view(f@) =~= seq![
                    ("id"@, JsonV::Num(*id)),
                    ("playerId"@, JsonV::Num(*player_id)),
                    ("health"@, JsonV::Num(*health)),
                    ("position"@, spec_pos_to_json(*position)),
                    ("diggingRange"@, JsonV::Num(*digging_range)),
                    ("movementRange"@, JsonV::Num(*movement_range)),
                    ("weapon"@, spec_weapon_to_json(*weapon)),
                ]);
            }
            Json::Obj(f)
        },
        CellWorm::OpponentWorm { id, player_id, health, position, digging_range, movement_range } => {
            let mut f: Vec<(Vec<char>, Json)> = Vec::new();
            proof {
                assert(fields_view(f@) =~= Seq::<(Seq<char>, JsonV)>::empty());
            }
            push_field(&mut f, "id", Json::Num(*id));
            push_field(&mut f, "playerId", Json::Num(*player_id));
            push_field(&mut f, "health", Json::Num(*health));
            push_field(&mut f, "position", pos_to_json(position));
            push_field(&mut f, "diggingRange", Json::Num(*digging_range));
            push_field(&mut f, "movementRange", Json::Num(*movement_range));
            proof {
                assert(fields_view(f@) =~= seq![
                    ("id"@, JsonV::Num(*id)),
                    ("playerId"@, JsonV::Num(*player_id)),
                    ("health"@, JsonV::Num(*health)),
                    ("position"@, spec_pos_to_json(*position)),
                    ("diggingRange"@, JsonV::Num(*digging_range)),
                    ("movementRange"@, JsonV::Num(*movement_range)),
                ]);
            }
            Json::Obj(f)
        },
    }
}

/// Encode a grid cell; `occupier` and `powerup` fields appear only when
/// present.
fn cell_to_json(c: &Cell) -> (j: Json)
    ensures
        j@ == spec_cell_to_json(*c),
{
    let mut f: Vec<(Vec<char>, Json)> = Vec::new();
    proof {
        assert(fields_view(f@) =~= Seq::<(Seq<char>, JsonV)>::empty());
    }
    push_field(&mut f, "x", Json::Num(c.x));
    push_field(&mut f, "y", Json::Num(c.y));
    push_field(&mut f, "type", Json::Str(celltype_token(&c.cell_type)));
    match &c.occupier {
        Some(w) => {
            push_field(&mut f, "occupier", cellworm_to_json(w));
        },
        None => {},
    }
    match &c.powerup {
        Some(p) => {
            push_field(&mut f, "powerup", powerup_to_json(p));
        },
        None => {},
    }
    proof {
        let base = seq![
            ("x"@, JsonV::Num(c.x)),
            ("y"@, JsonV::Num(c.y)),
            ("type"@, JsonV::Str(spec_celltype_token(c.cell_type))),
        ];
        let occ: Seq<(Seq<char>, JsonV)> = match c.occupier {
            Some(w) => seq![("occupier"@, spec_cellworm_to_json(w))],
            None => seq![],
        };
        let pw: Seq<(Seq<char>, JsonV)> = match c.powerup {
            Some(p) => seq![("powerup"@, spec_powerup_to_json(p))],
            None => seq![],
        };
        assert(fields_view(f@) =~= base + occ + pw);
    }
    Json::Obj(f)
}

/// Encode the controlled player's worms.
fn player_worms_to_json(ws: &Vec<PlayerWorm>) -> (j: Json)
    ensures
        j@ == JsonV::Arr(ws@.map_values(|w: PlayerWorm| spec_player_worm_to_json(w))),
{
    let mut items: Vec<Json> = Vec::new();
    let mut k: usize = 0;
    while k < ws.len()
        invariant
            k <= ws@.len(),
            jsons_view(items@) =~= ws@.subrange(0, k as int).map_values(
                |w: PlayerWorm| spec_player_worm_to_json(w),
            ),
        decreases ws@.len() - k,
    {
        let ghost before = items@;
        items.push(player_worm_to_json(&ws[k]));
        proof {
            lemma_jsons_view_push(before, items@[before.len() as int]);
            assert(jsons_view(items@) =~= ws@.subrange(0, (k + 1) as int).map_values(
                |w: PlayerWorm| spec_player_worm_to_json(w),
            ));
        }
        k = k + 1;
    }
    proof {
        assert(ws@.subrange(0, ws@.len() as int) =~= ws@);
    }
    Json::Arr(items)
}

/// Encode an opponent's worms.
fn opp_worms_to_json(ws: &Vec<OpponentWorm>) -> (j: Json)
    ensures
        j@ == JsonV::Arr(ws@.map_values(|w: OpponentWorm| spec_opp_worm_to_json(w))),
{
    let mut items: Vec<Json> = Vec::new();
    let mut k: usize = 0;
    while k < ws.len()
        invariant
            k <= ws@.len(),
            jsons_view(items@) =~= ws@.subrange(0, k as int).map_values(
                |w: OpponentWorm| spec_opp_worm_to_json(w),
            ),
        decreases ws@.len() - k,
    {
        let ghost before = items@;
        items.push(opp_worm_to_json(&ws[k]));
        proof {
            lemma_jsons_view_push(before, items@[before.len() as int]);
            assert(jsons_view(items@) =~= ws@.subrange(0, (k + 1) as int).map_values(
                |w: OpponentWorm| spec_opp_worm_to_json(w),
            ));
        }
        k = k + 1;
    }
    proof {
        assert(ws@.subrange(0, ws@.len() as int) =~= ws@);
    }
    Json::Arr(items)
}

/// Encode the controlled player.
fn player_to_json(p: &Player) -> (j: Json)
    ensures
        j@ == spec_player_to_json(p@),
{
    let mut f: Vec<(Vec<char>, Json)> = Vec::new();
    proof {
        assert(fields_view(f@) =~= Seq::<(Seq<char>, JsonV)>::empty());
    }
    push_field(&mut f, "id", Json::Num(p.id));
    push_field(&mut f, "score", Json::Num(p.score));
    push_field(&mut f, "health", Json::Num(p.health));
    push_field(&mut f, "worms", player_worms_to_json(&p.worms));
    proof {
        assert(fields_view(f@) =~= seq![
            ("id"@, JsonV::Num(p.id)),
            ("score"@, JsonV::Num(p.score)),
            ("health"@, JsonV::Num(p.health)),
            (
                "worms"@,
                JsonV::Arr(p.worms@.map_values(|w: PlayerWorm| spec_player_worm_to_json(w))),
            ),
        ]);
    }
    Json::Obj(f)
}

/// Encode an opponent summary.
fn opponent_to_json(o: &Opponent) -> (j: Json)
    ensures
        j@ == spec_opponent_to_json(o@),
{
    let mut f: Vec<(Vec<char>, Json)> = Vec::new();
    proof {
        assert(fields_view(f@) =~= Seq::<(Seq<char>, JsonV)>::empty());
    }
    push_field(&mut f, "id", Json::Num(o.id));
    push_field(&mut f, "score", Json::Num(o.score));
    push_field(&mut f, "worms", opp_worms_to_json(&o.worms));
    proof {
        assert(fields_view(f@) =~= seq![
            ("id"@, JsonV::Num(o.id)),
            ("score"@, JsonV::Num(o.score)),
            (
                "worms"@,
                JsonV::Arr(o.worms@.map_values(|w: OpponentWorm| spec_opp_worm_to_json(w))),
            ),
        ]);
    }
    Json::Obj(f)
}

/// Encode one map row.
fn row_to_json(row: &Vec<Cell>) -> (j: Json)
    ensures
        j@ == spec_row_to_json(row@),
{
    let mut items: Vec<Json> = Vec::new();
    let mut k: usize = 0;
    while k < row.len()
        invariant
            k <= row@.len(),
            jsons_view(items@) =~= row@.subrange(0, k as int).map_values(
                |c: Cell| spec_cell_to_json(c),
            ),
        decreases row@.len() - k,
    {
        let ghost before = items@;
        items.push(cell_to_json(&row[k]));
        proof {
            lemma_jsons_view_push(before, items@[before.len() as int]);
            assert(jsons_view(items@) =~= row@.subrange(0, (k + 1) as int).map_values(
                |c: Cell| spec_cell_to_json(c),
            ));
        }
        k = k + 1;
    }
    proof {
        assert(row@.subrange(0, row@.len() as int) =~= row@);
    }
    Json::Arr(items)
}

/// Encode a whole snapshot to its JSON form.
fn state_to_json(st: &State) -> (j: Json)
    ensures
        j@ == spec_state_to_json(st@),
{
    let mut opps: Vec<Json> = Vec::new();
    let mut k: usize = 0;
    while k < st.opponents.len()
        invariant
            k <= st.opponents@.len(),
            jsons_view(opps@) =~= st.opponents@.subrange(0, k as int).map_values(
                |o: Opponent| spec_opponent_to_json(o@),
            ),
        decreases st.opponents@.len() - k,
    {
        let ghost before = opps@;
        opps.push(opponent_to_json(&st.opponents[k]));
        proof {
            lemma_jsons_view_push(before, opps@[before.len() as int]);
            assert(jsons_view(opps@) =~= st.opponents@.subrange(0, (k + 1) as int).map_values(
                |o: Opponent| spec_opponent_to_json(o@),
            ));
        }
        k = k + 1;
    }
    let mut rows: Vec<Json> = Vec::new();
    let mut r: usize = 0;
    while r < st.map.len()
        invariant
            r <= st.map@.len(),
            jsons_view(rows@) =~= st.map@.subrange(0, r as int).map_values(
                |row: Vec<Cell>| spec_row_to_json(row@),
            ),
        decreases st.map@.len() - r,
    {
        let ghost before = rows@;
        rows.push(row_to_json(&st.map[r]));
        proof {
            lemma_jsons_view_push(before, rows@[before.len() as int]);
            assert(jsons_view(rows@) =~= st.map@.subrange(0, (r + 1) as int).map_values(
                |row: Vec<Cell>| spec_row_to_json(row@),
            ));
        }
        r = r + 1;
    }
    let mut f: Vec<(Vec<char>, Json)> = Vec::new();
    proof {
        assert(fields_view(f@) =~= Seq::<(Seq<char>, JsonV)>::empty());
    }
    push_field(&mut f, "currentRound", Json::Num(st.current_round));
    push_field(&mut f, "maxRounds", Json::Num(st.max_rounds));
    push_field(&mut f, "mapSize", Json::Num(st.map_size));
    push_field(&mut f, "currentWormId", Json::Num(st.current_worm_id));
    push_field(&mut f, "consecutiveDoNothingCount", Json::Num(st.consecutive_do_nothing_count));
    push_field(&mut f, "myPlayer", player_to_json(&st.my_player));
    push_field(&mut f, "opponents", Json::Arr(opps));
    push_field(&mut f, "map", Json::Arr(rows));
    proof {
        assert(st.opponents@.subrange(0, st.opponents@.len() as int) =~= st.opponents@);
        assert(st.map@.subrange(0, st.map@.len() as int) =~= st.map@);
        assert(st.opponents@.map_values(|o: Opponent| spec_opponent_to_json(o@))
            =~= st@.opponents.map_values(|o: OpponentV| spec_opponent_to_json(o)));
        assert(st.map@.map_values(|row: Vec<Cell>| spec_row_to_json(row@))
            =~= st@.map.map_values(|row: Seq<Cell>| spec_row_to_json(row)));
        assert(fields_view(f@) =~= seq![
            ("currentRound"@, JsonV::Num(st.current_round)),
            ("maxRounds"@, JsonV::Num(st.max_rounds)),
            ("mapSize"@, JsonV::Num(st.map_size)),
            ("currentWormId"@, JsonV::Num(st.current_worm_id)),
            ("consecutiveDoNothingCount"@, JsonV::Num(st.consecutive_do_nothing_count)),
            ("myPlayer"@, spec_player_to_json(st@.my_player)),
            (
                "opponents"@,
                JsonV::Arr(st@.opponents.map_values(|o: OpponentV| spec_opponent_to_json(o))),
            ),
            ("map"@, JsonV::Arr(st@.map.map_values(|row: Seq<Cell>| spec_row_to_json(row)))),
        ]);
    }
    Json::Obj(f)
}

/// Encode a whole snapshot to its canonical textual form.
pub fn encode_state(st: &State) -> (out: Vec<char>)
    ensures
        out@ == spec_encode_state(st@),
{
    let j = state_to_json(st);
    print_document(&j)
}

// ---------------------------------------------------------------------------
// Executable decoding
// ---------------------------------------------------------------------------

/// Decode a position object.
fn json_to_pos(j: &Json) -> (r: Option<Position>)
    ensures
        r == spec_json_to_pos(j@),
{
    match j {
        Json::Obj(f) => {
            match (get_num_field(f, "x"), get_num_field(f, "y")) {
                (Some(x), Some(y)) => Some(Position { x, y }),
                _ => None,
            }
        },
        _ => None,
    }
}

/// Decode a weapon object.
fn json_to_weapon(j: &Json) -> (r: Option<Weapon>)
    ensures
        r == spec_json_to_weapon(j@),
{
    match j {
        Json::Obj(f) => {
            match (get_num_field(f, "damage"), get_num_field(f, "range")) {
                (Some(damage), Some(range)) => Some(Weapon { damage, range }),
                _ => None,
            }
        },
        _ => None,
    }
}

/// Decode a terrain token.
fn token_to_celltype(t: &Vec<char>) -> (r: Option<CellType>)
    ensures
        r == spec_token_to_celltype(t@),
{
    if chars_eq_str(t, "AIR") {
        Some(CellType::Air)
    } else if chars_eq_str(t, "DIRT") {
        Some(CellType::Dirt)
    } else if chars_eq_str(t, "DEEP_SPACE") {
        Some(CellType::DeepSpace)
    } else {
        None
    }
}

/// Decode a powerup object.
fn json_to_powerup(j: &Json) -> (r: Option<Powerup>)
    ensures
        r == spec_json_to_powerup(j@),
{
    match j {
        Json::Obj(f) => {
            match (get_str_field(f, "type"), get_num_field(f, "value")) {
                (Some(t), Some(value)) => {
                    if chars_eq_str(t, "HEALTH_PACK") {
                        Some(Powerup { powerup_type: PowerupType::HealthPack, value })
                    } else {
                        None
                    }
                },
                _ => None,
            }
        },
        _ => None,
    }
}

/// Decode a worm of the controlled player.
fn json_to_player_worm(j: &Json) -> (r: Option<PlayerWorm>)
    ensures
        r == spec_json_to_player_worm(j@),
{
    match j {
        Json::Obj(f) => {
            let id = get_num_field(f, "id");
            let health = get_num_field(f, "health");
            let dr = get_num_field(f, "diggingRange");
            let mr = get_num_field(f, "movementRange");
            match (id, health, dr, mr) {
                (Some(id), Some(health), Some(digging_range), Some(movement_range)) => {
                    match (get_field(f, "position"), get_field(f, "weapon")) {
                        (Some(pj), Some(wj)) => {
                            match (json_to_pos(pj), json_to_weapon(wj)) {
                                (Some(position), Some(weapon)) => Some(
                                    PlayerWorm {
                                        id,
                                        health,
                                        position,
                                        digging_range,
                                        movement_range,
                                        weapon,
                                    },
                                ),
                                _ => None,
                            }
                        },
                        _ => None,
                    }
                },
                _ => None,
            }
        },
        _ => None,
    }
}

/// Decode an opponent's worm.
fn json_to_opp_worm(j: &Json) -> (r: Option<OpponentWorm>)
    ensures
        r == spec_json_to_opp_worm(j@),
{
    match j {
        Json::Obj(f) => {
            let id = get_num_field(f, "id");
            let health = get_num_field(f, "health");
            let dr = get_num_field(f, "diggingRange");
            let mr = get_num_field(f, "movementRange");
            match (id, health, dr, mr) {
                (Some(id), Some(health), Some(digging_range), Some(movement_range)) => {
                    match get_field(f, "position") {
                        Some(pj) => {
                            match json_to_pos(pj) {
                                Some(position) => Some(
                                    OpponentWorm {
                                        id,
                                        health,
                                        position,
                                        digging_range,
                                        movement_range,
                                    },
                                ),
                                None => None,
                            }
                        },
                        None => None,
                    }
                },
                _ => None,
            }
        },
        _ => None,
    }
}

/// Decode a cell occupier: weapon-bearing shape first, then the shape
/// without a weapon.
fn json_to_cellworm(j: &Json) -> (r: Option<CellWorm>)
    ensures
        r == spec_json_to_cellworm(j@),
{
    match j {
        Json::Obj(f) => {
            let id = get_num_field(f, "id");
            let pid = get_num_field(f, "playerId");
            let health = get_num_field(f, "health");
            let dr = get_num_field(f, "diggingRange");
            let mr = get_num_field(f, "movementRange");
            match (id, pid, health, dr, mr) {
                (
                    Some(id),
                    Some(player_id),
                    Some(health),
                    Some(digging_range),
                    Some(movement_range),
                ) => {
                    match get_field(f, "position") {
                        Some(pj) => {
                            match json_to_pos(pj) {
                                Some(position) => {
                                    match get_field(f, "weapon") {
                                        Some(wj) => {
                                            match json_to_weapon(wj) {
                                                Some(weapon) => Some(
                                                    CellWorm::PlayerWorm {
                                                        id,
                                                        player_id,
                                                        health,
                                                        position,
                                                        digging_range,
                                                        movement_range,
                                                        weapon,
                                                    },
                                                ),
                                                None => None,
                                            }
                                        },
                                        None => Some(
                                            CellWorm::OpponentWorm {
                                                id,
                                                player_id,
                                                health,
                                                position,
                                                digging_range,
                                                movement_range,
                                            },
                                        ),
                                    }
                                },
                                None => None,
                            }
                        },
                        None => None,
                    }
                },
                _ => None,
            }
        },
        _ => None,
    }
}

/// Decode a grid cell.
fn json_to_cell(j: &Json) -> (r: Option<Cell>)
    ensures
        r == spec_json_to_cell(j@),
{
    match j {
        Json::Obj(f) => {
            let x = get_num_field(f, "x");
            let y = get_num_field(f, "y");
            let t = get_str_field(f, "type");
            match (x, y, t) {
                (Some(x), Some(y), Some(t)) => {
                    match token_to_celltype(t) {
                        Some(cell_type) => {
                            let occupier: Option<CellWorm> = match get_field(f, "occupier") {
                                Some(oj) => {
                                    match json_to_cellworm(oj) {
                                        Some(w) => Some(w),
                                        None => {
                                            return None;
                                        },
                                    }
                                },
                                None => None,
                            };
                            let powerup: Option<Powerup> = match get_field(f, "powerup") {
                                Some(pj) => {
                                    match json_to_powerup(pj) {
                                        Some(p) => Some(p),
                                        None => {
                                            return None;
                                        },
                                    }
                                },
                                None => None,
                            };
                            Some(Cell { x, y, cell_type, occupier, powerup })
                        },
                        None => None,
                    }
                },
                _ => None,
            }
        },
        _ => None,
    }
}

/// Decode an array of the controlled player's worms.
fn json_to_player_worms(items: &Vec<Json>) -> (r: Option<Vec<PlayerWorm>>)
    ensures
        ({
            let sp = decode_player_worms(jsons_view(items@));
            match r {
                Some(v) => sp == Some(v@),
                None => sp is None,
            }
        }),
{
    let ghost jv = jsons_view(items@);
    proof {
        crate::json::lemma_jsons_view_len(items@);
        assert(jv.subrange(0, jv.len() as int) =~= jv);
    }
    let mut out: Vec<PlayerWorm> = Vec::new();
    let mut k: usize = 0;
    while k < items.len()
        invariant
            k <= items@.len(),
            jv == jsons_view(items@),
            jv.len() == items@.len(),
            decode_player_worms(jv) == (match decode_player_worms(
                jv.subrange(k as int, jv.len() as int),
            ) {
                Some(rest) => Some(out@ + rest),
                None => None::<Seq<PlayerWorm>>,
            }),
        decreases items@.len() - k,
    {
        proof {
            lemma_jsons_view_index(items@, k as int);
            let sub = jv.subrange(k as int, jv.len() as int);
            assert(sub[0] == jv[k as int]);
            assert(sub.subrange(1, sub.len() as int) =~= jv.subrange(
                (k + 1) as int,
                jv.len() as int,
            ));
        }
        match json_to_player_worm(&items[k]) {
            Some(w) => {
                let ghost before = out@;
                out.push(w);
                proof {
                    if let Some(rest) = decode_player_worms(
                        jv.subrange((k + 1) as int, jv.len() as int),
                    ) {
                        assert(before + (seq![w] + rest) =~= out@ + rest);
                    }
                }
            },
            None => {
                return None;
            },
        }
        k = k + 1;
    }
    proof {
        assert(jv.subrange(items@.len() as int, jv.len() as int) =~= Seq::<JsonV>::empty());
        assert(out@ + Seq::<PlayerWorm>::empty() =~= out@);
    }
    Some(out)
}

/// Decode an array of opponent worms.
fn json_to_opp_worms(items: &Vec<Json>) -> (r: Option<Vec<OpponentWorm>>)
    ensures
        ({
            let sp = decode_opp_worms(jsons_view(items@));
            match r {
                Some(v) => sp == Some(v@),
                None => sp is None,
            }
        }),
{
    let ghost jv = jsons_view(items@);
    proof {
        crate::json::lemma_jsons_view_len(items@);
        assert(jv.subrange(0, jv.len() as int) =~= jv);
    }
    let mut out: Vec<OpponentWorm> = Vec::new();
    let mut k: usize = 0;
    while k < items.len()
        invariant
            k <= items@.len(),
            jv == jsons_view(items@),
            jv.len() == items@.len(),
            decode_opp_worms(jv) == (match decode_opp_worms(
                jv.subrange(k as int, jv.len() as int),
            ) {
                Some(rest) => Some(out@ + rest),
                None => None::<Seq<OpponentWorm>>,
            }),
        decreases items@.len() - k,
    {
        proof {
            lemma_jsons_view_index(items@, k as int);
            let sub = jv.subrange(k as int, jv.len() as int);
            assert(sub[0] == jv[k as int]);
            assert(sub.subrange(1, sub.len() as int) =~= jv.subrange(
                (k + 1) as int,
                jv.len() as int,
            ));
        }
        match json_to_opp_worm(&items[k]) {
            Some(w) => {
                let ghost before = out@;
                out.push(w);
                proof {
                    if let Some(rest) = decode_opp_worms(
                        jv.subrange((k + 1) as int, jv.len() as int),
                    ) {
                        assert(before + (seq![w] + rest) =~= out@ + rest);
                    }
                }
            },
            None => {
                return None;
            },
        }
        k = k + 1;
    }
    proof {
        assert(jv.subrange(items@.len() as int, jv.len() as int) =~= Seq::<JsonV>::empty());
        assert(out@ + Seq::<OpponentWorm>::empty() =~= out@);
    }
    Some(out)
}

/// Decode an array of cells.
fn json_to_cells(items: &Vec<Json>) -> (r: Option<Vec<Cell>>)
    ensures
        ({
            let sp = decode_cells(jsons_view(items@));
            match r {
                Some(v) => sp == Some(v@),
                None => sp is None,
            }
        }),
{
    let ghost jv = jsons_view(items@);
    proof {
        crate::json::lemma_jsons_view_len(items@);
        assert(jv.subrange(0, jv.len() as int) =~= jv);
    }
    let mut out: Vec<Cell> = Vec::new();
    let mut k: usize = 0;
    while k < items.len()
        invariant
            k <= items@.len(),
            jv == jsons_view(items@),
            jv.len() == items@.len(),
            decode_cells(jv) == (match decode_cells(jv.subrange(k as int, jv.len() as int)) {
                Some(rest) => Some(out@ + rest),
                None => None::<Seq<Cell>>,
            }),
        decreases items@.len() - k,
    {
        proof {
            lemma_jsons_view_index(items@, k as int);
            let sub = jv.subrange(k as int, jv.len() as int);
            assert(sub[0] == jv[k as int]);
            assert(sub.subrange(1, sub.len() as int) =~= jv.subrange(
                (k + 1) as int,
                jv.len() as int,
            ));
        }
        match json_to_cell(&items[k]) {
            Some(c) => {
                let ghost before = out@;
                out.push(c);
                proof {
                    if let Some(rest) = decode_cells(jv.subrange((k + 1) as int, jv.len() as int)) {
                        assert(before + (seq![c] + rest) =~= out@ + rest);
                    }
                }
            },
            None => {
                return None;
            },
        }
        k = k + 1;
    }
    proof {
        assert(jv.subrange(items@.len() as int, jv.len() as int) =~= Seq::<JsonV>::empty());
        assert(out@ + Seq::<Cell>::empty() =~= out@);
    }
    Some(out)
}

/// Decode the controlled player.
fn json_to_player(j: &Json) -> (r: Option<Player>)
    ensures
        ({
            let sp = spec_json_to_player(j@);
            match r {
                Some(p) => sp == Some(p@),
                None => sp is None,
            }
        }),
{
    match j {
        Json::Obj(f) => {
            let id = get_num_field(f, "id");
            let score = get_num_field(f, "score");
            let health = get_num_field(f, "health");
            match (id, score, health) {
                (Some(id), Some(score), Some(health)) => {
                    match get_arr_field(f, "worms") {
                        Some(ws) => {
                            match json_to_player_worms(ws) {
                                Some(worms) => Some(Player { id, score, health, worms }),
                                None => None,
                            }
                        },
                        None => None,
                    }
                },
                _ => None,
            }
        },
        _ => None,
    }
}

/// Decode an opponent summary.
fn json_to_opponent(j: &Json) -> (r: Option<Opponent>)
    ensures
        ({
            let sp = spec_json_to_opponent(j@);
            match r {
                Some(o) => sp == Some(o@),
                None => sp is None,
            }
        }),
{
    match j {
        Json::Obj(f) => {
            let id = get_num_field(f, "id");
            let score = get_num_field(f, "score");
            match (id, score) {
                (Some(id), Some(score)) => {
                    match get_arr_field(f, "worms") {
                        Some(ws) => {
                            match json_to_opp_worms(ws) {
                                Some(worms) => Some(Opponent { id, score, worms }),
                                None => None,
                            }
                        },
                        None => None,
                    }
                },
                _ => None,
            }
        },
        _ => None,
    }
}

/// Decode an array of opponent summaries.
fn json_to_opponents(items: &Vec<Json>) -> (r: Option<Vec<Opponent>>)
    ensures
        ({
            let sp = decode_opponents(jsons_view(items@));
            match r {
                Some(v) => sp == Some(v@.map_values(|o: Opponent| o@)),
                None => sp is None,
            }
        }),
{
    let ghost jv = jsons_view(items@);
    proof {
        crate::json::lemma_jsons_view_len(items@);
        assert(jv.subrange(0, jv.len() as int) =~= jv);
    }
    let mut out: Vec<Opponent> = Vec::new();
    proof {
        assert(out@.map_values(|o: Opponent| o@) =~= Seq::<OpponentV>::empty());
    }
    let mut k: usize = 0;
    while k < items.len()
        invariant
            k <= items@.len(),
            jv == jsons_view(items@),
            jv.len() == items@.len(),
            decode_opponents(jv) == (match decode_opponents(
                jv.subrange(k as int, jv.len() as int),
            ) {
                Some(rest) => Some(out@.map_values(|o: Opponent| o@) + rest),
                None => None::<Seq<OpponentV>>,
            }),
        decreases items@.len() - k,
    {
        proof {
            lemma_jsons_view_index(items@, k as int);
            let sub = jv.subrange(k as int, jv.len() as int);
            assert(sub[0] == jv[k as int]);
            assert(sub.subrange(1, sub.len() as int) =~= jv.subrange(
                (k + 1) as int,
                jv.len() as int,
            ));
        }
        match json_to_opponent(&items[k]) {
            Some(o) => {
                let ghost before = out@;
                let ghost ov = o@;
                out.push(o);
                proof {
                    assert(out@.map_values(|o: Opponent| o@) =~= before.map_values(
                        |o: Opponent| o@,
                    ).push(ov));
                    if let Some(rest) = decode_opponents(
                        jv.subrange((k + 1) as int, jv.len() as int),
                    ) {
                        assert(before.map_values(|o: Opponent| o@) + (seq![ov] + rest)
                            =~= out@.map_values(|o: Opponent| o@) + rest);
                    }
                }
            },
            None => {
                return None;
            },
        }
        k = k + 1;
    }
    proof {
        assert(jv.subrange(items@.len() as int, jv.len() as int) =~= Seq::<JsonV>::empty());
        assert(out@.map_values(|o: Opponent| o@) + Seq::<OpponentV>::empty() =~= out@.map_values(
            |o: Opponent| o@,
        ));
    }
    Some(out)
}

/// Decode the map: an array of rows, each an array of cells.
fn json_to_map(items: &Vec<Json>) -> (r: Option<Vec<Vec<Cell>>>)
    ensures
        ({
            let sp = decode_rows(jsons_view(items@));
            match r {
                Some(v) => sp == Some(v@.map_values(|row: Vec<Cell>| row@)),
                None => sp is None,
            }
        }),
{
    let ghost jv = jsons_view(items@);
    proof {
        crate::json::lemma_jsons_view_len(items@);
        assert(jv.subrange(0, jv.len() as int) =~= jv);
    }
    let mut out: Vec<Vec<Cell>> = Vec::new();
    proof {
        assert(out@.map_values(|row: Vec<Cell>| row@) =~= Seq::<Seq<Cell>>::empty());
    }
    let mut k: usize = 0;
    while k < items.len()
        invariant
            k <= items@.len(),
            jv == jsons_view(items@),
            jv.len() == items@.len(),
            decode_rows(jv) == (match decode_rows(jv.subrange(k as int, jv.len() as int)) {
                Some(rest) => Some(out@.map_values(|row: Vec<Cell>| row@) + rest),
                None => None::<Seq<Seq<Cell>>>,
            }),
        decreases items@.len() - k,
    {
        proof {
            lemma_jsons_view_index(items@, k as int);
            let sub = jv.subrange(k as int, jv.len() as int);
            assert(sub[0] == jv[k as int]);
            assert(sub.subrange(1, sub.len() as int) =~= jv.subrange(
                (k + 1) as int,
                jv.len() as int,
            ));
        }
        let rowr: Option<Vec<Cell>> = match &items[k] {
            Json::Arr(cells) => json_to_cells(cells),
            _ => None,
        };
        match rowr {
            Some(row) => {
                let ghost before = out@;
                let ghost rv = row@;
                out.push(row);
                proof {
                    assert(out@.map_values(|row: Vec<Cell>| row@) =~= before.map_values(
                        |row: Vec<Cell>| row@,
                    ).push(rv));
                    if let Some(rest) = decode_rows(jv.subrange((k + 1) as int, jv.len() as int)) {
                        assert(before.map_values(|row: Vec<Cell>| row@) + (seq![rv] + rest)
                            =~= out@.map_values(|row: Vec<Cell>| row@) + rest);
                    }
                }
            },
            None => {
                return None;
            },
        }
        k = k + 1;
    }
    proof {
        assert(jv.subrange(items@.len() as int, jv.len() as int) =~= Seq::<JsonV>::empty());
        assert(out@.map_values(|row: Vec<Cell>| row@) + Seq::<Seq<Cell>>::empty()
            =~= out@.map_values(|row: Vec<Cell>| row@));
    }
    Some(out)
}

/// Decode a whole snapshot from its JSON form.
fn json_to_state(j: &Json) -> (r: Option<State>)
    ensures
        ({
            let sp = spec_json_to_state(j@);
            match r {
                Some(st) => sp == Some(st@),
                None => sp is None,
            }
        }),
{
    match j {
        Json::Obj(f) => {
            let cr = get_num_field(f, "currentRound");
            let mr = get_num_field(f, "maxRounds");
            let ms = get_num_field(f, "mapSize");
            let cw = get_num_field(f, "currentWormId");
            let cd = get_num_field(f, "consecutiveDoNothingCount");
            match (cr, mr, ms, cw, cd) {
                (
                    Some(current_round),
                    Some(max_rounds),
                    Some(map_size),
                    Some(current_worm_id),
                    Some(consecutive_do_nothing_count),
                ) => {
                    let pj = get_field(f, "myPlayer");
                    let os = get_arr_field(f, "opponents");
                    let rows = get_arr_field(f, "map");
                    match (pj, os, rows) {
                        (Some(pj), Some(os), Some(rows)) => {
                            let my_player = json_to_player(pj);
                            let opponents = json_to_opponents(os);
                            let map = json_to_map(rows);
                            match (my_player, opponents, map) {
                                (Some(my_player), Some(opponents), Some(map)) => Some(
                                    State {
                                        current_round,
                                        max_rounds,
                                        map_size,
                                        current_worm_id,
                                        consecutive_do_nothing_count,
                                        my_player,
                                        opponents,
                                        map,
                                    },
                                ),
                                _ => None,
                            }
                        },
                        _ => None,
                    }
                },
                _ => None,
            }
        },
        _ => None,
    }
}

/// Decode a snapshot document from text: parse, then check the schema. The
/// result distinguishes a syntax failure from a schema failure; a document is
/// either rejected or decoded in full, never default-filled.
pub fn decode_state(text: &Vec<char>) -> (r: Result<State, DecodeError>)
    ensures
        ({
            let sp = spec_decode_state(text@);
            match r {
                Ok(st) => sp == Ok::<StateV, DecodeError>(st@),
                Err(e) => sp == Err::<StateV, DecodeError>(e),
            }
        }),
{
    match parse_document(text) {
        None => Err(DecodeError::Syntax),
        Some(j) => match json_to_state(&j) {
            Some(st) => Ok(st),
            None => Err(DecodeError::Schema),
        },
    }
}

/// Decode a snapshot document handed over as a string slice.
pub fn state_from_str(text: &str) -> (r: Result<State, DecodeError>)
    ensures
        ({
            let sp = spec_decode_state(text@);
            match r {
                Ok(st) => sp == Ok::<StateV, DecodeError>(st@),
                Err(e) => sp == Err::<StateV, DecodeError>(e),
            }
        }),
{
    let chars = chars_of_str(text);
    decode_state(&chars)
}

// ---------------------------------------------------------------------------
// Laws: printability, round trip, rejection
// ---------------------------------------------------------------------------

/// The encoded form of a position is printable.
proof fn lemma_pos_wf(p: Position)
    ensures
        json_wf(spec_pos_to_json(p)),
{
    reveal_strlit("x");
    reveal_strlit("y");
    assert(str_ok("x"@));
    assert(str_ok("y"@));
    assert(json_wf(JsonV::Num(p.x)));
    assert(json_wf(JsonV::Num(p.y)));
}

/// The encoded form of a weapon is printable.
proof fn lemma_weapon_wf(w: Weapon)
    ensures
        json_wf(spec_weapon_to_json(w)),
{
    reveal_strlit("damage");
    reveal_strlit("range");
    assert(str_ok("damage"@));
    assert(str_ok("range"@));
    assert(json_wf(JsonV::Num(w.damage)));
    assert(json_wf(JsonV::Num(w.range)));
}

/// The encoded form of a powerup is printable.
proof fn lemma_powerup_wf(p: Powerup)
    ensures
        json_wf(spec_powerup_to_json(p)),
{
    reveal_strlit("type");
    reveal_strlit("value");
    reveal_strlit("HEALTH_PACK");
    assert(str_ok("type"@));
    assert(str_ok("value"@));
    assert(str_ok("HEALTH_PACK"@));
    assert(json_wf(JsonV::Str("HEALTH_PACK"@)));
    assert(json_wf(JsonV::Num(p.value)));
}

/// Terrain tokens are printable.
proof fn lemma_celltype_token_ok(t: CellType)
    ensures
        str_ok(spec_celltype_token(t)),
{
    reveal_strlit("AIR");
    reveal_strlit("DIRT");
    reveal_strlit("DEEP_SPACE");
    assert(str_ok("AIR"@));
    assert(str_ok("DIRT"@));
    assert(str_ok("DEEP_SPACE"@));
}

/// The encoded form of a player worm is printable.
proof fn lemma_player_worm_wf(w: PlayerWorm)
    ensures
        json_wf(spec_player_worm_to_json(w)),
{
    lemma_pos_wf(w.position);
    lemma_weapon_wf(w.weapon);
    reveal_strlit("id");
    reveal_strlit("health");
    reveal_strlit("position");
    reveal_strlit("diggingRange");
    reveal_strlit("movementRange");
    reveal_strlit("weapon");
    assert(str_ok("id"@));
    assert(str_ok("health"@));
    assert(str_ok("position"@));
    assert(str_ok("diggingRange"@));
    assert(str_ok("movementRange"@));
    assert(str_ok("weapon"@));
    assert(json_wf(JsonV::Num(w.id)));
    assert(json_wf(JsonV::Num(w.health)));
    assert(json_wf(JsonV::Num(w.digging_range)));
    assert(json_wf(JsonV::Num(w.movement_range)));
}

/// The encoded form of an opponent worm is printable.
proof fn lemma_opp_worm_wf(w: OpponentWorm)
    ensures
        json_wf(spec_opp_worm_to_json(w)),
{
    lemma_pos_wf(w.position);
    reveal_strlit("id");
    reveal_strlit("health");
    reveal_strlit("position");
    reveal_strlit("diggingRange");
    reveal_strlit("movementRange");
    assert(str_ok("id"@));
    assert(str_ok("health"@));
    assert(str_ok("position"@));
    assert(str_ok("diggingRange"@));
    assert(str_ok("movementRange"@));
    assert(json_wf(JsonV::Num(w.id)));
    assert(json_wf(JsonV::Num(w.health)));
    assert(json_wf(JsonV::Num(w.digging_range)));
    assert(json_wf(JsonV::Num(w.movement_range)));
}

/// The encoded form of a cell occupier is printable.
proof fn lemma_cellworm_wf(w: CellWorm)
    ensures
        json_wf(spec_cellworm_to_json(w)),
{
    reveal_strlit("id");
    reveal_strlit("playerId");
    reveal_strlit("health");
    reveal_strlit("position");
    reveal_strlit("diggingRange");
    reveal_strlit("movementRange");
    reveal_strlit("weapon");
    assert(str_ok("id"@));
    assert(str_ok("playerId"@));
    assert(str_ok("health"@));
    assert(str_ok("position"@));
    assert(str_ok("diggingRange"@));
    assert(str_ok("movementRange"@));
    assert(str_ok("weapon"@));
    match w {
        CellWorm::PlayerWorm {
            id,
            player_id,
            health,
            position,
            digging_range,
            movement_range,
            weapon,
        } => {
            lemma_pos_wf(position);
            lemma_weapon_wf(weapon);
            assert(json_wf(JsonV::Num(id)));
            assert(json_wf(JsonV::Num(player_id)));
            assert(json_wf(JsonV::Num(health)));
            assert(json_wf(JsonV::Num(digging_range)));
            assert(json_wf(JsonV::Num(movement_range)));
        },
        CellWorm::OpponentWorm { id, player_id, health, position, digging_range, movement_range } => {
            lemma_pos_wf(position);
            assert(json_wf(JsonV::Num(id)));
            assert(json_wf(JsonV::Num(player_id)));
            assert(json_wf(JsonV::Num(health)));
            assert(json_wf(JsonV::Num(digging_range)));
            assert(json_wf(JsonV::Num(movement_range)));
        },
    }
}

/// The encoded form of a cell is printable.
proof fn lemma_cell_wf(c: Cell)
    ensures
        json_wf(spec_cell_to_json(c)),
{
    reveal_strlit("x");
    reveal_strlit("y");
    reveal_strlit("type");
    reveal_strlit("occupier");
    reveal_strlit("powerup");
    assert(str_ok("x"@));
    assert(str_ok("y"@));
    assert(str_ok("type"@));
    assert(str_ok("occupier"@));
    assert(str_ok("powerup"@));
    lemma_celltype_token_ok(c.cell_type);
    assert(json_wf(JsonV::Num(c.x)));
    assert(json_wf(JsonV::Num(c.y)));
    assert(json_wf(JsonV::Str(spec_celltype_token(c.cell_type))));
    match c.occupier {
        Some(w) => {
            lemma_cellworm_wf(w);
        },
        None => {},
    }
    match c.powerup {
        Some(p) => {
            lemma_powerup_wf(p);
        },
        None => {},
    }
}

/// The encoded form of the controlled player is printable.
proof fn lemma_player_wf(p: PlayerV)
    ensures
        json_wf(spec_player_to_json(p)),
{
    reveal_strlit("id");
    reveal_strlit("score");
    reveal_strlit("health");
    reveal_strlit("worms");
    assert(str_ok("id"@));
    assert(str_ok("score"@));
    assert(str_ok("health"@));
    assert(str_ok("worms"@));
    assert(json_wf(JsonV::Num(p.id)));
    assert(json_wf(JsonV::Num(p.score)));
    assert(json_wf(JsonV::Num(p.health)));
    let arr = p.worms.map_values(|w: PlayerWorm| spec_player_worm_to_json(w));
    assert forall|k: int| 0 <= k < arr.len() implies json_wf(#[trigger] arr[k]) by {
        lemma_player_worm_wf(p.worms[k]);
    }
    assert(json_wf(JsonV::Arr(arr)));
}

/// The encoded form of an opponent is printable.
proof fn lemma_opponent_wf(o: OpponentV)
    ensures
        json_wf(spec_opponent_to_json(o)),
{
    reveal_strlit("id");
    reveal_strlit("score");
    reveal_strlit("worms");
    assert(str_ok("id"@));
    assert(str_ok("score"@));
    assert(str_ok("worms"@));
    assert(json_wf(JsonV::Num(o.id)));
    assert(json_wf(JsonV::Num(o.score)));
    let arr = o.worms.map_values(|w: OpponentWorm| spec_opp_worm_to_json(w));
    assert forall|k: int| 0 <= k < arr.len() implies json_wf(#[trigger] arr[k]) by {
        lemma_opp_worm_wf(o.worms[k]);
    }
    assert(json_wf(JsonV::Arr(arr)));
}

/// The encoded form of a whole snapshot is printable.
proof fn lemma_state_wf(v: StateV)
    ensures
        json_wf(spec_state_to_json(v)),
{
    reveal_strlit("currentRound");
    reveal_strlit("maxRounds");
    reveal_strlit("mapSize");
    reveal_strlit("currentWormId");
    reveal_strlit("consecutiveDoNothingCount");
    reveal_strlit("myPlayer");
    reveal_strlit("opponents");
    reveal_strlit("map");
    assert(str_ok("currentRound"@));
    assert(str_ok("maxRounds"@));
    assert(str_ok("mapSize"@));
    assert(str_ok("currentWormId"@));
    assert(str_ok("consecutiveDoNothingCount"@));
    assert(str_ok("myPlayer"@));
    assert(str_ok("opponents"@));
    assert(str_ok("map"@));
    lemma_player_wf(v.my_player);
    assert(json_wf(JsonV::Num(v.current_round)));
    assert(json_wf(JsonV::Num(v.max_rounds)));
    assert(json_wf(JsonV::Num(v.map_size)));
    assert(json_wf(JsonV::Num(v.current_worm_id)));
    assert(json_wf(JsonV::Num(v.consecutive_do_nothing_count)));
    let opps = v.opponents.map_values(|o: OpponentV| spec_opponent_to_json(o));
    assert forall|k: int| 0 <= k < opps.len() implies json_wf(#[trigger] opps[k]) by {
        lemma_opponent_wf(v.opponents[k]);
    }
    assert(json_wf(JsonV::Arr(opps)));
    let rows = v.map.map_values(|row: Seq<Cell>| spec_row_to_json(row));
    assert forall|k: int| 0 <= k < rows.len() implies json_wf(#[trigger] rows[k]) by {
        let cells = v.map[k].map_values(|c: Cell| spec_cell_to_json(c));
        assert forall|t: int| 0 <= t < cells.len() implies json_wf(#[trigger] cells[t]) by {
            lemma_cell_wf(v.map[k][t]);
        }
        assert(json_wf(JsonV::Arr(cells)));
    }
    assert(json_wf(JsonV::Arr(rows)));
}

/// Decoding the encoding of a position yields it back.
proof fn lemma_pos_rt(p: Position)
    ensures
        spec_json_to_pos(spec_pos_to_json(p)) == Some(p),
{
    reveal_strlit("x");
    reveal_strlit("y");
    assert("x"@[0] == 'x');
    assert("y"@[0] == 'y');
    assert("x"@ != "y"@);
    let f = seq![("x"@, JsonV::Num(p.x)), ("y"@, JsonV::Num(p.y))];
    assert(f.subrange(1, 2) =~= seq![("y"@, JsonV::Num(p.y))]);
    assert(obj_get(f.subrange(1, 2), "y"@) == Some(JsonV::Num(p.y)));
    assert(obj_get(f, "x"@) == Some(JsonV::Num(p.x)));
    assert(obj_get(f, "y"@) == Some(JsonV::Num(p.y)));
}

/// Decoding the encoding of a weapon yields it back.
proof fn lemma_weapon_rt(w: Weapon)
    ensures
        spec_json_to_weapon(spec_weapon_to_json(w)) == Some(w),
{
    reveal_strlit("damage");
    reveal_strlit("range");
    let f = seq![("damage"@, JsonV::Num(w.damage)), ("range"@, JsonV::Num(w.range))];
    assert("damage"@.len() == 6);
    assert("range"@.len() == 5);
    assert("damage"@ != "range"@);
    assert(f.subrange(1, 2) =~= seq![("range"@, JsonV::Num(w.range))]);
    assert(obj_get(f.subrange(1, 2), "range"@) == Some(JsonV::Num(w.range)));
    assert(obj_get(f, "damage"@) == Some(JsonV::Num(w.damage)));
    assert(obj_get(f, "range"@) == Some(JsonV::Num(w.range)));
}

/// Decoding the token of a terrain type yields it back.
proof fn lemma_celltype_rt(t: CellType)
    ensures
        spec_token_to_celltype(spec_celltype_token(t)) == Some(t),
{
    reveal_strlit("AIR");
    reveal_strlit("DIRT");
    reveal_strlit("DEEP_SPACE");
    assert("AIR"@.len() == 3);
    assert("DIRT"@.len() == 4);
    assert("DEEP_SPACE"@.len() == 10);
    assert("DIRT"@ != "AIR"@);
    assert("DEEP_SPACE"@ != "AIR"@);
    assert("DEEP_SPACE"@ != "DIRT"@);
}

/// Decoding the encoding of a powerup yields it back.
proof fn lemma_powerup_rt(p: Powerup)
    ensures
        spec_json_to_powerup(spec_powerup_to_json(p)) == Some(p),
{
    reveal_strlit("type");
    reveal_strlit("value");
    let f = seq![("type"@, JsonV::Str("HEALTH_PACK"@)), ("value"@, JsonV::Num(p.value))];
    assert("type"@.len() == 4);
    assert("value"@.len() == 5);
    assert("type"@ != "value"@);
    assert(f.subrange(1, 2) =~= seq![("value"@, JsonV::Num(p.value))]);
    assert(obj_get(f.subrange(1, 2), "value"@) == Some(JsonV::Num(p.value)));
    assert(obj_get(f, "type"@) == Some(JsonV::Str("HEALTH_PACK"@)));
    assert(obj_get(f, "value"@) == Some(JsonV::Num(p.value)));
}

/// Decoding the encoding of a player worm yields it back.
proof fn lemma_player_worm_rt(w: PlayerWorm)
    ensures
        spec_json_to_player_worm(spec_player_worm_to_json(w)) == Some(w),
{
    reveal_with_fuel(obj_get, 8);
    reveal_strlit("id");
    reveal_strlit("health");
    reveal_strlit("position");
    reveal_strlit("diggingRange");
    reveal_strlit("movementRange");
    reveal_strlit("weapon");
    assert("id"@.len() == 2);
    assert("health"@.len() == 6);
    assert("position"@.len() == 8);
    assert("diggingRange"@.len() == 12);
    assert("movementRange"@.len() == 13);
    assert("weapon"@.len() == 6);
    assert("health"@[0] == 'h');
    assert("weapon"@[0] == 'w');
    assert("health"@ != "weapon"@);
    lemma_pos_rt(w.position);
    lemma_weapon_rt(w.weapon);
}

/// Decoding the encoding of an opponent worm yields it back.
proof fn lemma_opp_worm_rt(w: OpponentWorm)
    ensures
        spec_json_to_opp_worm(spec_opp_worm_to_json(w)) == Some(w),
{
    reveal_with_fuel(obj_get, 7);
    reveal_strlit("id");
    reveal_strlit("health");
    reveal_strlit("position");
    reveal_strlit("diggingRange");
    reveal_strlit("movementRange");
    assert("id"@.len() == 2);
    assert("health"@.len() == 6);
    assert("position"@.len() == 8);
    assert("diggingRange"@.len() == 12);
    assert("movementRange"@.len() == 13);
    lemma_pos_rt(w.position);
}

/// Decoding the encoding of a cell occupier yields it back: the encoded
/// player-owned shape carries a weapon and is recovered as player-owned, the
/// opponent-owned shape carries none and falls back to the lean variant.
proof fn lemma_cellworm_rt(w: CellWorm)
    ensures
        spec_json_to_cellworm(spec_cellworm_to_json(w)) == Some(w),
{
    reveal_with_fuel(obj_get, 9);
    reveal_strlit("id");
    reveal_strlit("playerId");
    reveal_strlit("health");
    reveal_strlit("position");
    reveal_strlit("diggingRange");
    reveal_strlit("movementRange");
    reveal_strlit("weapon");
    assert("id"@.len() == 2);
    assert("playerId"@.len() == 8);
    assert("health"@.len() == 6);
    assert("position"@.len() == 8);
    assert("diggingRange"@.len() == 12);
    assert("movementRange"@.len() == 13);
    assert("weapon"@.len() == 6);
    assert("health"@[0] == 'h');
    assert("weapon"@[0] == 'w');
    assert("health"@ != "weapon"@);
    assert("playerId"@[0] == 'p');
    assert("position"@[1] == 'o');
    assert("playerId"@[1] == 'l');
    assert("playerId"@ != "position"@);
    match w {
        CellWorm::PlayerWorm { position, weapon, .. } => {
            lemma_pos_rt(position);
            lemma_weapon_rt(weapon);
        },
        CellWorm::OpponentWorm { position, .. } => {
            lemma_pos_rt(position);
        },
    }
}

/// Decoding the encoding of a cell yields it back, with absent `occupier`
/// and `powerup` staying absent.
proof fn lemma_cell_rt(c: Cell)
    ensures
        spec_json_to_cell(spec_cell_to_json(c)) == Some(c),
{
    reveal_with_fuel(obj_get, 7);
    reveal_strlit("x");
    reveal_strlit("y");
    reveal_strlit("type");
    reveal_strlit("occupier");
    reveal_strlit("powerup");
    assert("x"@.len() == 1);
    assert("y"@.len() == 1);
    assert("type"@.len() == 4);
    assert("occupier"@.len() == 8);
    assert("powerup"@.len() == 7);
    assert("x"@[0] == 'x');
    assert("y"@[0] == 'y');
    assert("x"@ != "y"@);
    lemma_celltype_rt(c.cell_type);
    match c.occupier {
        Some(w) => {
            lemma_cellworm_rt(w);
        },
        None => {},
    }
    match c.powerup {
        Some(p) => {
            lemma_powerup_rt(p);
        },
        None => {},
    }
}

/// Decoding the encoded worms of the controlled player yields them back.
proof fn lemma_player_worms_rt(ws: Seq<PlayerWorm>)
    ensures
        decode_player_worms(ws.map_values(|w: PlayerWorm| spec_player_worm_to_json(w))) == Some(
            ws,
        ),
    decreases ws.len(),
{
    let enc = ws.map_values(|w: PlayerWorm| spec_player_worm_to_json(w));
    if ws.len() == 0 {
        assert(enc =~= Seq::<JsonV>::empty());
        assert(ws =~= Seq::<PlayerWorm>::empty());
    } else {
        let rest = ws.subrange(1, ws.len() as int);
        lemma_player_worms_rt(rest);
        lemma_player_worm_rt(ws[0]);
        assert(enc[0] == spec_player_worm_to_json(ws[0]));
        assert(enc.subrange(1, enc.len() as int) =~= rest.map_values(
            |w: PlayerWorm| spec_player_worm_to_json(w),
        ));
        assert(seq![ws[0]] + rest =~= ws);
    }
}

/// Decoding the encoded worms of an opponent yields them back.
proof fn lemma_opp_worms_rt(ws: Seq<OpponentWorm>)
    ensures
        decode_opp_worms(ws.map_values(|w: OpponentWorm| spec_opp_worm_to_json(w))) == Some(ws),
    decreases ws.len(),
{
    let enc = ws.map_values(|w: OpponentWorm| spec_opp_worm_to_json(w));
    if ws.len() == 0 {
        assert(enc =~= Seq::<JsonV>::empty());
        assert(ws =~= Seq::<OpponentWorm>::empty());
    } else {
        let rest = ws.subrange(1, ws.len() as int);
        lemma_opp_worms_rt(rest);
        lemma_opp_worm_rt(ws[0]);
        assert(enc[0] == spec_opp_worm_to_json(ws[0]));
        assert(enc.subrange(1, enc.len() as int) =~= rest.map_values(
            |w: OpponentWorm| spec_opp_worm_to_json(w),
        ));
        assert(seq![ws[0]] + rest =~= ws);
    }
}

/// Decoding an encoded row of cells yields it back.
proof fn lemma_cells_rt(row: Seq<Cell>)
    ensures
        decode_cells(row.map_values(|c: Cell| spec_cell_to_json(c))) == Some(row),
    decreases row.len(),
{
    let enc = row.map_values(|c: Cell| spec_cell_to_json(c));
    if row.len() == 0 {
        assert(enc =~= Seq::<JsonV>::empty());
        assert(row =~= Seq::<Cell>::empty());
    } else {
        let rest = row.subrange(1, row.len() as int);
        lemma_cells_rt(rest);
        lemma_cell_rt(row[0]);
        assert(enc[0] == spec_cell_to_json(row[0]));
        assert(enc.subrange(1, enc.len() as int) =~= rest.map_values(
            |c: Cell| spec_cell_to_json(c),
        ));
        assert(seq![row[0]] + rest =~= row);
    }
}

/// Decoding the encoding of the controlled player yields it back.
proof fn lemma_player_rt(p: PlayerV)
    ensures
        spec_json_to_player(spec_player_to_json(p)) == Some(p),
{
    reveal_with_fuel(obj_get, 6);
    reveal_strlit("id");
    reveal_strlit("score");
    reveal_strlit("health");
    reveal_strlit("worms");
    assert("id"@.len() == 2);
    assert("score"@.len() == 5);
    assert("health"@.len() == 6);
    assert("worms"@.len() == 5);
    assert("score"@[0] == 's');
    assert("worms"@[0] == 'w');
    assert("score"@ != "worms"@);
    lemma_player_worms_rt(p.worms);
}

/// Decoding the encoding of an opponent yields it back.
proof fn lemma_opponent_rt(o: OpponentV)
    ensures
        spec_json_to_opponent(spec_opponent_to_json(o)) == Some(o),
{
    reveal_with_fuel(obj_get, 5);
    reveal_strlit("id");
    reveal_strlit("score");
    reveal_strlit("worms");
    assert("id"@.len() == 2);
    assert("score"@.len() == 5);
    assert("worms"@.len() == 5);
    assert("score"@[0] == 's');
    assert("worms"@[0] == 'w');
    assert("score"@ != "worms"@);
    lemma_opp_worms_rt(o.worms);
}

/// Decoding the encoded opponents yields them back.
proof fn lemma_opponents_rt(os: Seq<OpponentV>)
    ensures
        decode_opponents(os.map_values(|o: OpponentV| spec_opponent_to_json(o))) == Some(os),
    decreases os.len(),
{
    let enc = os.map_values(|o: OpponentV| spec_opponent_to_json(o));
    if os.len() == 0 {
        assert(enc =~= Seq::<JsonV>::empty());
        assert(os =~= Seq::<OpponentV>::empty());
    } else {
        let rest = os.subrange(1, os.len() as int);
        lemma_opponents_rt(rest);
        lemma_opponent_rt(os[0]);
        assert(enc[0] == spec_opponent_to_json(os[0]));
        assert(enc.subrange(1, enc.len() as int) =~= rest.map_values(
            |o: OpponentV| spec_opponent_to_json(o),
        ));
        assert(seq![os[0]] + rest =~= os);
    }
}

/// Decoding the encoded map rows yields them back.
proof fn lemma_rows_rt(map: Seq<Seq<Cell>>)
    ensures
        decode_rows(map.map_values(|row: Seq<Cell>| spec_row_to_json(row))) == Some(map),
    decreases map.len(),
{
    let enc = map.map_values(|row: Seq<Cell>| spec_row_to_json(row));
    if map.len() == 0 {
        assert(enc =~= Seq::<JsonV>::empty());
        assert(map =~= Seq::<Seq<Cell>>::empty());
    } else {
        let rest = map.subrange(1, map.len() as int);
        lemma_rows_rt(rest);
        lemma_cells_rt(map[0]);
        assert(enc[0] == spec_row_to_json(map[0]));
        assert(spec_json_to_row(enc[0]) == Some(map[0]));
        assert(enc.subrange(1, enc.len() as int) =~= rest.map_values(
            |row: Seq<Cell>| spec_row_to_json(row),
        ));
        assert(seq![map[0]] + rest =~= map);
    }
}

/// Decoding the encoded snapshot JSON yields the snapshot back.
#[verifier::rlimit(100)]
#[verifier::spinoff_prover]
proof fn lemma_state_json_rt(v: StateV)
    ensures
        spec_json_to_state(spec_state_to_json(v)) == Some(v),
{
    reveal_with_fuel(obj_get, 10);
    reveal_strlit("currentRound");
    reveal_strlit("maxRounds");
    reveal_strlit("mapSize");
    reveal_strlit("currentWormId");
    reveal_strlit("consecutiveDoNothingCount");
    reveal_strlit("myPlayer");
    reveal_strlit("opponents");
    reveal_strlit("map");
    assert("currentRound"@.len() == 12);
    assert("maxRounds"@.len() == 9);
    assert("mapSize"@.len() == 7);
    assert("currentWormId"@.len() == 13);
    assert("consecutiveDoNothingCount"@.len() == 25);
    assert("myPlayer"@.len() == 8);
    assert("opponents"@.len() == 9);
    assert("map"@.len() == 3);
    assert("maxRounds"@[0] == 'm');
    assert("opponents"@[0] == 'o');
    assert("maxRounds"@ != "opponents"@);
    lemma_player_rt(v.my_player);
    lemma_opponents_rt(v.opponents);
    lemma_rows_rt(v.map);
}

/// Round trip: decoding the encoding of any snapshot yields a value equal to
/// the original. Serialization and deserialization are mutual inverses on
/// the typed model.
pub proof fn lemma_state_round_trip(v: StateV)
    ensures
        spec_decode_state(spec_encode_state(v)) == Ok::<StateV, DecodeError>(v),
{
    lemma_state_wf(v);
    crate::json::lemma_parse_print_document(spec_state_to_json(v));
    lemma_state_json_rt(v);
}

/// Which keys the snapshot schema requires at the top level.
pub open spec fn state_required_key(key: Seq<char>) -> bool {
    ||| key == "currentRound"@
    ||| key == "maxRounds"@
    ||| key == "mapSize"@
    ||| key == "currentWormId"@
    ||| key == "consecutiveDoNothingCount"@
    ||| key == "myPlayer"@
    ||| key == "opponents"@
    ||| key == "map"@
}

/// A document that parses to an object missing any required top-level field
/// is rejected with a schema failure, never decoded to a default-filled
/// snapshot.
pub proof fn lemma_missing_field_rejected(s: Seq<char>, f: Seq<(Seq<char>, JsonV)>, key: Seq<char>)
    requires
        spec_parse_document(s) == Some(JsonV::Obj(f)),
        state_required_key(key),
        obj_get(f, key) is None,
    ensures
        spec_decode_state(s) == Err::<StateV, DecodeError>(DecodeError::Schema),
{
    assert(spec_json_to_state(JsonV::Obj(f)) is None);
}

/// A snapshot object decodes only if every top-level field of the schema is
/// present with the right type.
pub proof fn lemma_state_requires_fields(f: Seq<(Seq<char>, JsonV)>)
    ensures
        spec_json_to_state(JsonV::Obj(f)) is Some ==> get_num(f, "currentRound"@) is Some
            && get_num(f, "maxRounds"@) is Some && get_num(f, "mapSize"@) is Some && get_num(
            f,
            "currentWormId"@,
        ) is Some && get_num(f, "consecutiveDoNothingCount"@) is Some && obj_get(
            f,
            "myPlayer"@,
        ) is Some && get_arr(f, "opponents"@) is Some && get_arr(f, "map"@) is Some,
{
}

/// A terrain token outside the closed set {AIR, DIRT, DEEP_SPACE} is
/// rejected.
pub proof fn lemma_unknown_celltype_rejected(t: Seq<char>)
    requires
        t != "AIR"@,
        t != "DIRT"@,
        t != "DEEP_SPACE"@,
    ensures
        spec_token_to_celltype(t) is None,
{
}

/// A powerup token other than HEALTH_PACK is rejected.
pub proof fn lemma_unknown_powerup_rejected(j: JsonV, f: Seq<(Seq<char>, JsonV)>, t: Seq<char>)
    requires
        j == JsonV::Obj(f),
        get_str(f, "type"@) == Some(t),
        t != "HEALTH_PACK"@,
    ensures
        spec_json_to_powerup(j) is None,
{
}

/// A player worm object decodes only if every required field is present with
/// the right type, the weapon included: nothing is default-filled.
pub proof fn lemma_player_worm_requires_fields(f: Seq<(Seq<char>, JsonV)>)
    ensures
        spec_json_to_player_worm(JsonV::Obj(f)) is Some ==> get_num(f, "id"@) is Some && get_num(
            f,
            "health"@,
        ) is Some && get_num(f, "diggingRange"@) is Some && get_num(f, "movementRange"@) is Some
            && obj_get(f, "position"@) is Some && obj_get(f, "weapon"@) is Some,
{
}

/// A cell object decodes only if its coordinates and terrain type are
/// present; an unknown terrain token rejects the cell.
pub proof fn lemma_cell_requires_fields(f: Seq<(Seq<char>, JsonV)>)
    ensures
        spec_json_to_cell(JsonV::Obj(f)) is Some ==> get_num(f, "x"@) is Some && get_num(
            f,
            "y"@,
        ) is Some && (exists|tok: Seq<char>|
            get_str(f, "type"@) == Some(tok) && spec_token_to_celltype(tok) is Some),
{
}

/// The controlled player decodes only if id, score, health and the worm
/// array are all present with the right types.
pub proof fn lemma_player_requires_fields(f: Seq<(Seq<char>, JsonV)>)
    ensures
        spec_json_to_player(JsonV::Obj(f)) is Some ==> get_num(f, "id"@) is Some && get_num(
            f,
            "score"@,
        ) is Some && get_num(f, "health"@) is Some && get_arr(f, "worms"@) is Some,
{
}

} // verus!

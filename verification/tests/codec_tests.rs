use worms_state::codec::{decode_state, encode_state, state_from_str, DecodeError};
use worms_state::model::{
    Cell, CellType, CellWorm, Opponent, OpponentWorm, Player, PlayerWorm, Position, Powerup,
    PowerupType, State, Weapon,
};

fn example_json() -> &'static str {
    r#"
{
  "currentRound": 0,
  "maxRounds": 200,
  "mapSize": 33,
  "currentWormId": 1,
  "consecutiveDoNothingCount": 0,
  "myPlayer": {
    "id": 1,
    "score": 100,
    "health": 300,
    "worms": [
      {
        "id": 1,
        "health": 100,
        "position": {
          "x": 24,
          "y": 29
        },
        "weapon": {
          "damage": 1,
          "range": 3
        },
        "diggingRange": 1,
        "movementRange": 1
      }
    ]
  },
  "opponents": [
    {
      "id": 2,
      "score": 100,
      "worms": [
        {
          "id": 1,
          "health": 100,
          "position": {
            "x": 31,
            "y": 16
          },
          "diggingRange": 1,
          "movementRange": 1
        }
      ]
    }
  ],
  "map": [
    [
      {
        "x": 0,
        "y": 0,
        "type": "DEEP_SPACE"
      },
      {
        "x": 1,
        "y": 0,
        "type": "AIR"
      },
      {
        "x": 2,
        "y": 0,
        "type": "DIRT"
      }
    ],
    [
      {
        "x": 0,
        "y": 1,
        "type": "AIR",
        "powerup": {
          "type": "HEALTH_PACK",
          "value": 5
        }
      },
      {
        "x": 1,
        "y": 1,
        "type": "AIR",
        "occupier": {
          "id": 1,
          "playerId": 2,
          "health": 100,
          "position": {
            "x": 1,
            "y": 1
          },
          "diggingRange": 1,
          "movementRange": 1
        }
      },
      {
        "x": 2,
        "y": 1,
        "type": "AIR",
        "occupier": {
          "id": 1,
          "playerId": 1,
          "health": 100,
          "position": {
            "x": 2,
            "y": 1
          },
          "weapon": {
            "damage": 1,
            "range": 3
          },
          "diggingRange": 1,
          "movementRange": 1
        }
      }
    ]
  ]
}"#
}

fn example_state() -> State {
    State {
        current_round: 0,
        max_rounds: 200,
        map_size: 33,
        current_worm_id: 1,
        consecutive_do_nothing_count: 0,
        my_player: Player {
            id: 1,
            score: 100,
            health: 300,
            worms: vec![PlayerWorm {
                id: 1,
                health: 100,
                position: Position { x: 24, y: 29 },
                weapon: Weapon { damage: 1, range: 3 },
                digging_range: 1,
                movement_range: 1,
            }],
        },
        opponents: vec![Opponent {
            id: 2,
            score: 100,
            worms: vec![OpponentWorm {
                id: 1,
                health: 100,
                position: Position { x: 31, y: 16 },
                digging_range: 1,
                movement_range: 1,
            }],
        }],
        map: vec![
            vec![
                Cell {
                    x: 0,
                    y: 0,
                    cell_type: CellType::DeepSpace,
                    occupier: None,
                    powerup: None,
                },
                Cell { x: 1, y: 0, cell_type: CellType::Air, occupier: None, powerup: None },
                Cell { x: 2, y: 0, cell_type: CellType::Dirt, occupier: None, powerup: None },
            ],
            vec![
                Cell {
                    x: 0,
                    y: 1,
                    cell_type: CellType::Air,
                    occupier: None,
                    powerup: Some(Powerup { powerup_type: PowerupType::HealthPack, value: 5 }),
                },
                Cell {
                    x: 1,
                    y: 1,
                    cell_type: CellType::Air,
                    occupier: Some(CellWorm::OpponentWorm {
                        id: 1,
                        player_id: 2,
                        health: 100,
                        position: Position { x: 1, y: 1 },
                        digging_range: 1,
                        movement_range: 1,
                    }),
                    powerup: None,
                },
                Cell {
                    x: 2,
                    y: 1,
                    cell_type: CellType::Air,
                    occupier: Some(CellWorm::PlayerWorm {
                        id: 1,
                        player_id: 1,
                        health: 100,
                        position: Position { x: 2, y: 1 },
                        digging_range: 1,
                        movement_range: 1,
                        weapon: Weapon { damage: 1, range: 3 },
                    }),
                    powerup: None,
                },
            ],
        ],
    }
}

#[test]
fn example_parses_correctly() {
    let expected = example_state();
    let parsed: State = state_from_str(example_json()).unwrap();
    assert_eq!(
        parsed, expected,
        "Parsed value did not match the expected value.\nParsed = {:#?}\nExpected = {:#?}",
        parsed, expected
    );
}

#[test]
fn round_trip_example_state() {
    let original = example_state();
    let text = encode_state(&original);
    let back = decode_state(&text).unwrap();
    assert_eq!(back, original);
}

#[test]
fn round_trip_through_string() {
    let original = example_state();
    let text: String = encode_state(&original).into_iter().collect();
    let back = state_from_str(&text).unwrap();
    assert_eq!(back, original);
}

#[test]
fn missing_required_field_is_schema_error() {
    // The mapSize field is absent.
    let doc = r#"{
        "currentRound": 0,
        "maxRounds": 200,
        "currentWormId": 1,
        "consecutiveDoNothingCount": 0,
        "myPlayer": { "id": 1, "score": 0, "health": 0, "worms": [] },
        "opponents": [],
        "map": []
    }"#;
    assert_eq!(state_from_str(doc), Err(DecodeError::Schema));
}

#[test]
fn missing_nested_field_is_schema_error() {
    // The single worm has no weapon field, which myPlayer worms require.
    let doc = r#"{
        "currentRound": 0,
        "maxRounds": 200,
        "mapSize": 1,
        "currentWormId": 1,
        "consecutiveDoNothingCount": 0,
        "myPlayer": { "id": 1, "score": 0, "health": 0, "worms": [
            { "id": 1, "health": 1, "position": { "x": 0, "y": 0 },
              "diggingRange": 1, "movementRange": 1 }
        ] },
        "opponents": [],
        "map": []
    }"#;
    assert_eq!(state_from_str(doc), Err(DecodeError::Schema));
}

#[test]
fn unknown_cell_type_token_is_schema_error() {
    let doc = r#"{
        "currentRound": 0,
        "maxRounds": 200,
        "mapSize": 1,
        "currentWormId": 1,
        "consecutiveDoNothingCount": 0,
        "myPlayer": { "id": 1, "score": 0, "health": 0, "worms": [] },
        "opponents": [],
        "map": [[ { "x": 0, "y": 0, "type": "LAVA" } ]]
    }"#;
    assert_eq!(state_from_str(doc), Err(DecodeError::Schema));
}

#[test]
fn unknown_powerup_token_is_schema_error() {
    let doc = r#"{
        "currentRound": 0,
        "maxRounds": 200,
        "mapSize": 1,
        "currentWormId": 1,
        "consecutiveDoNothingCount": 0,
        "myPlayer": { "id": 1, "score": 0, "health": 0, "worms": [] },
        "opponents": [],
        "map": [[ { "x": 0, "y": 0, "type": "AIR",
                    "powerup": { "type": "SPEED_BOOST", "value": 5 } } ]]
    }"#;
    assert_eq!(state_from_str(doc), Err(DecodeError::Schema));
}

#[test]
fn wrongly_typed_field_is_schema_error() {
    let doc = r#"{
        "currentRound": "zero",
        "maxRounds": 200,
        "mapSize": 1,
        "currentWormId": 1,
        "consecutiveDoNothingCount": 0,
        "myPlayer": { "id": 1, "score": 0, "health": 0, "worms": [] },
        "opponents": [],
        "map": []
    }"#;
    assert_eq!(state_from_str(doc), Err(DecodeError::Schema));
}

#[test]
fn malformed_document_is_syntax_error() {
    assert_eq!(state_from_str("{"), Err(DecodeError::Syntax));
    assert_eq!(state_from_str(""), Err(DecodeError::Syntax));
    assert_eq!(state_from_str("{} trailing"), Err(DecodeError::Syntax));
    assert_eq!(state_from_str("{\"a\": tru}"), Err(DecodeError::Syntax));
}

#[test]
fn number_above_u32_range_is_syntax_error() {
    let doc = r#"{ "currentRound": 4294967296 }"#;
    assert_eq!(state_from_str(doc), Err(DecodeError::Syntax));
    let doc2 = r#"{ "currentRound": 99999999999 }"#;
    assert_eq!(state_from_str(doc2), Err(DecodeError::Syntax));
}

#[test]
fn non_object_document_is_schema_error() {
    assert_eq!(state_from_str("[1,2,3]"), Err(DecodeError::Schema));
    assert_eq!(state_from_str("42"), Err(DecodeError::Schema));
}

#[test]
fn occupier_discrimination_is_structural() {
    let parsed = state_from_str(example_json()).unwrap();
    // The occupier at (1,1) has no weapon on the wire: it must be the
    // opponent-owned variant. The one at (2,1) has a weapon: player-owned.
    match parsed.map[1][1].occupier {
        Some(CellWorm::OpponentWorm { player_id, .. }) => assert_eq!(player_id, 2),
        other => panic!("expected an opponent occupier, got {:?}", other),
    }
    match parsed.map[1][2].occupier {
        Some(CellWorm::PlayerWorm { weapon, .. }) => {
            assert_eq!(weapon, Weapon { damage: 1, range: 3 })
        },
        other => panic!("expected a player occupier, got {:?}", other),
    }
    // Absent everywhere else.
    assert_eq!(parsed.map[0][0].occupier, None);
    assert_eq!(parsed.map[0][0].powerup, None);
    assert_eq!(parsed.map[0][1].occupier, None);
    assert_eq!(parsed.map[0][2].occupier, None);
    assert_eq!(parsed.map[1][0].occupier, None);
    assert_eq!(
        parsed.map[1][0].powerup,
        Some(Powerup { powerup_type: PowerupType::HealthPack, value: 5 })
    );
    assert_eq!(parsed.map[1][1].powerup, None);
    assert_eq!(parsed.map[1][2].powerup, None);
}

#[test]
fn error_messages_describe_the_failure() {
    let syntax = state_from_str("{").unwrap_err();
    assert_eq!(syntax.message(), "the document is not well-formed JSON");
    let schema = state_from_str("42").unwrap_err();
    assert_eq!(schema.message(), "the document does not match the snapshot schema");
}

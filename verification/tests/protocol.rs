use ultimate_fate::content::FormulaId;
use ultimate_fate::geometry::Direction;
use ultimate_fate::lab::DEFAULT_SEED;
use ultimate_fate::model::ItemId;
use ultimate_fate::lab::help_json;
use ultimate_fate::protocol::{framed_message, parse_command, AidResolutionKind, LabCommand};

#[test]
fn protocol_accepts_shell_and_json_commands() {
    assert_eq!(
        parse_command("move west 12"),
        Ok(LabCommand::Move {
            direction: Direction::West,
            count: 12
        })
    );
    assert_eq!(
        parse_command(r#"{"command":"observe","radius":20}"#),
        Ok(LabCommand::Observe { radius: 20 })
    );
    assert_eq!(
        parse_command("pursue 2 1"),
        Ok(LabCommand::PursueGoal {
            goal_index: 2,
            option_index: 1,
            maximum_turns: 10_000,
        })
    );
    assert_eq!(
        parse_command(r#"{"command":"pursue","goal_index":1,"option_index":2,"maximum_turns":500}"#),
        Ok(LabCommand::PursueGoal {
            goal_index: 1,
            option_index: 2,
            maximum_turns: 500,
        })
    );
    assert_eq!(
        parse_command("slice 2"),
        Ok(LabCommand::PlaySlice {
            resolution_index: 2,
            maximum_turns: 10_000,
        })
    );
    assert_eq!(
        parse_command(r#"{"command":"slice","resolution_index":1,"maximum_turns":750}"#),
        Ok(LabCommand::PlaySlice {
            resolution_index: 1,
            maximum_turns: 750,
        })
    );
    assert_eq!(parse_command("study"), Ok(LabCommand::Study));
    assert_eq!(
        parse_command("experiment 17 23"),
        Ok(LabCommand::Experiment {
            first: ItemId(17),
            second: ItemId(23),
        })
    );
    assert_eq!(
        parse_command(r#"{"command":"cast","formula":2}"#),
        Ok(LabCommand::Cast {
            formula: FormulaId(2)
        })
    );
    assert_eq!(
        parse_command("aid theft"),
        Ok(LabCommand::ResolveAid {
            approach: AidResolutionKind::TakenWithoutConsent,
            maximum_turns: 10_000,
        })
    );
    assert_eq!(
        parse_command(r#"{"command":"aid","approach":"purchase","maximum_turns":750}"#),
        Ok(LabCommand::ResolveAid {
            approach: AidResolutionKind::Purchased,
            maximum_turns: 750,
        })
    );
}

#[test]
fn blank_lines_are_refused() {
    assert_eq!(parse_command(""), Err("empty command".to_string()));
    assert_eq!(parse_command(" \t\n "), Err("empty command".to_string()));
}

#[test]
fn unknown_words_are_quoted_back() {
    assert_eq!(
        parse_command("  DANCE wildly"),
        Err("unknown command \"dance\"".to_string())
    );
    assert_eq!(
        parse_command(r#"{"command":"Jump"}"#),
        Err("unknown JSON command \"jump\"".to_string())
    );
    assert_eq!(
        parse_command("move sideways"),
        Err("invalid direction \"sideways\"".to_string())
    );
    assert_eq!(
        parse_command("aid Bribe"),
        Err("invalid aid approach \"Bribe\"; expected consent, purchase, theft, or alternative"
            .to_string())
    );
}

#[test]
fn shell_commands_take_defaults_and_limits() {
    assert_eq!(parse_command("reset"), Ok(LabCommand::Reset { seed: DEFAULT_SEED }));
    assert_eq!(parse_command("reset 0x1F"), Ok(LabCommand::Reset { seed: 31 }));
    assert_eq!(parse_command("reset +42"), Ok(LabCommand::Reset { seed: 42 }));
    assert_eq!(parse_command("look"), Ok(LabCommand::Observe { radius: 12 }));
    assert_eq!(parse_command("observe 1"), Ok(LabCommand::Observe { radius: 2 }));
    assert_eq!(parse_command("observe 900"), Ok(LabCommand::Observe { radius: 64 }));
    assert_eq!(parse_command("observe many"), Ok(LabCommand::Observe { radius: 12 }));
    assert_eq!(
        parse_command("MOVE N 0"),
        Ok(LabCommand::Move { direction: Direction::North, count: 1 })
    );
    assert_eq!(
        parse_command("move right 99999"),
        Ok(LabCommand::Move { direction: Direction::East, count: 10_000 })
    );
    assert_eq!(parse_command("wait"), Ok(LabCommand::Wait { turns: 1 }));
    assert_eq!(parse_command("autoplay"), Ok(LabCommand::Explore { turns: 500 }));
    assert_eq!(parse_command("cast"), Ok(LabCommand::Cast { formula: FormulaId(1) }));
    assert_eq!(parse_command("quests"), Ok(LabCommand::Objectives));
    assert_eq!(parse_command("exit"), Ok(LabCommand::Quit));
    assert_eq!(
        parse_command("goto  Old   Mill "),
        Ok(LabCommand::Goto { target: "Old Mill".to_string(), maximum_turns: 10_000 })
    );
}

#[test]
fn shell_arguments_report_their_errors() {
    assert_eq!(parse_command("move"), Err("move requires a direction".to_string()));
    assert_eq!(parse_command("goto"), Err("goto requires a landmark name".to_string()));
    assert_eq!(
        parse_command("aid"),
        Err("aid requires consent, purchase, theft, or alternative".to_string())
    );
    assert_eq!(
        parse_command("experiment 4"),
        Err("experiment requires two item ids".to_string())
    );
    assert_eq!(
        parse_command("experiment x 4"),
        Err("invalid digit found in string".to_string())
    );
    assert_eq!(
        parse_command("reset 0x"),
        Err("cannot parse integer from empty string".to_string())
    );
    assert_eq!(
        parse_command("reset 18446744073709551616"),
        Err("number too large to fit in target type".to_string())
    );
    assert_eq!(parse_command("reset +"), Err("invalid digit found in string".to_string()));
}

#[test]
fn json_commands_read_their_fields() {
    assert_eq!(
        parse_command(r#"  {"command": "MOVE", "direction": "south", "count": 30000}"#),
        Ok(LabCommand::Move { direction: Direction::South, count: 10_000 })
    );
    assert_eq!(
        parse_command(r#"{"command":"move"}"#),
        Err("move requires \"direction\"".to_string())
    );
    assert_eq!(
        parse_command(r#"{"command":"wait","turns":0}"#),
        Ok(LabCommand::Wait { turns: 1 })
    );
    assert_eq!(
        parse_command(r#"{"command":"reset"}"#),
        Ok(LabCommand::Reset { seed: DEFAULT_SEED })
    );
    assert_eq!(
        parse_command(r#"{"command":"reset","seed":99999999999999999999}"#),
        Ok(LabCommand::Reset { seed: DEFAULT_SEED })
    );
    assert_eq!(
        parse_command(r#"{"command":"experiment","first":3}"#),
        Err("experiment requires \"second\" item id".to_string())
    );
    assert_eq!(
        parse_command(r#"{"command":"goto","target":"North Gate","maximum_turns":0}"#),
        Ok(LabCommand::Goto { target: "North Gate".to_string(), maximum_turns: 1 })
    );
    assert_eq!(
        parse_command(r#"{"radius":3}"#),
        Err("JSON command requires a string \"command\" field".to_string())
    );
    assert_eq!(
        parse_command(r#"{"command":"exit"}"#),
        Err("unknown JSON command \"exit\"".to_string())
    );
}

#[test]
fn surrounding_space_is_ignored() {
    assert_eq!(parse_command(" \t wait 3 \n"), parse_command("wait 3"));
    assert_eq!(
        parse_command("  {\"command\":\"study\"}  "),
        parse_command("{\"command\":\"study\"}")
    );
}

#[test]
fn error_messages_frame_the_quoted_word() {
    assert_eq!(
        framed_message("invalid aid approach ", "\"bribe\"", "; expected consent, purchase, theft, or alternative"),
        "invalid aid approach \"bribe\"; expected consent, purchase, theft, or alternative"
    );
    assert_eq!(framed_message("", "", ""), "");
    assert_eq!(
        parse_command("aid bribe"),
        Err(String::from("invalid aid approach \"bribe\"; expected consent, purchase, theft, or alternative"))
    );
}

#[test]
fn the_help_example_parses_to_a_move() {
    let help = help_json();
    let start = help.find("\"json_example\":").unwrap() + "\"json_example\":".len();
    let example = &help[start..help.len() - 1];
    assert_eq!(example, "{\"command\":\"move\",\"direction\":\"east\",\"count\":10}");
    assert_eq!(parse_command(example), Ok(LabCommand::Move { direction: Direction::East, count: 10 }));
}

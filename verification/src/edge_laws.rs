//! Properties of what the player meets at the edges of play: what blocks a
//! shot, what a protocol line asks for, what using a provision does, how
//! entities look and how replies carry text.
use vstd::prelude::*;

use crate::client::trim;
use crate::geometry::{abs_int, GridPos, WorldPosition};
use crate::lab::{escape_char, json_decodes, json_escaped, lemma_decodes_joined, lemma_escape_char_decodes};
use crate::model::{ActionFailure, Entity, EntityId, EntityKind, GameCommand, ItemId};
use crate::present::{visible_entity, Appearance, CharacterAppearance};
use crate::protocol::{json_string_value, lowered, parsed_command, shell_command, words_of, CommandView};
use crate::simulation::{
    carries, combat_ready, immediate_result, lemma_nearest_is_candidate, lemma_walk_passes_through, line_cell,
    line_clear, player_position, player_weapon_range, ranged_plan, ranged_threat, threat_candidate, walk_point, SimState,
};

verus! {

/// Walls stop sight: when a cell that the line from `start` to `end` crosses,
/// strictly between the two, holds terrain that blocks sight, the line is not
/// clear.
pub proof fn law_walls_block_the_line(s: SimState, start: WorldPosition, end: WorldPosition, k: nat)
    requires
        start.map == end.map,
        start.grid.z == end.grid.z,
        start.grid.x != end.grid.x || start.grid.y != end.grid.y,
        1 <= k <= abs_int(end.grid.x - start.grid.x) + abs_int(end.grid.y - start.grid.y),
        forall|j: nat| 1 <= j <= k ==> #[trigger] line_cell(start.grid, end.grid, j) != (end.grid.x as int, end.grid.y as int),
        i32::MIN <= line_cell(start.grid, end.grid, k).0 <= i32::MAX,
        i32::MIN <= line_cell(start.grid, end.grid, k).1 <= i32::MAX,
        s.maps.contains_key(start.map.0),
        s.maps[start.map.0].cell_at(
            GridPos {
                x: line_cell(start.grid, end.grid, k).0 as i32,
                y: line_cell(start.grid, end.grid, k).1 as i32,
                z: start.grid.z,
            },
        ) matches Some(cell) && cell.sight_blocked,
    ensures
        !line_clear(s, start, end),
{
    let dx = abs_int(end.grid.x - start.grid.x);
    let dy = -abs_int(end.grid.y - start.grid.y);
    let sx = if start.grid.x < end.grid.x {
        1int
    } else {
        -1int
    };
    let sy = if start.grid.y < end.grid.y {
        1int
    } else {
        -1int
    };
    let x = start.grid.x as int;
    let y = start.grid.y as int;
    let ex = end.grid.x as int;
    let ey = end.grid.y as int;
    if line_clear(s, start, end) {
        assert forall|j: nat| 1 <= j <= k implies #[trigger] walk_point(x, y, dx, dy, sx, sy, dx + dy, j).0 != ex
            || walk_point(x, y, dx, dy, sx, sy, dx + dy, j).1 != ey by {
            assert(line_cell(start.grid, end.grid, j) != (ex, ey));
        }
        lemma_walk_passes_through(s, start.map, start.grid.z, x, y, ex, ey, dx, dy, sx, sy, dx + dy, (dx - dy + 1) as nat, k);
    }
}

/// No shot passes a wall: with a sight-blocking cell on the line between two
/// fighters, the attacker cannot shoot the target (for want of a clear line,
/// or for a reason checked before it, never for want of ammunition), and the
/// player's pick of a hostile to shoot never names that target.
pub proof fn law_no_shot_through_walls(s: SimState, attacker: EntityId, target: EntityId, k: nat)
    requires
        s.entities.contains_key(attacker.0),
        s.entities.contains_key(target.0),
        ({
            let start = s.entities[attacker.0].position;
            let end = s.entities[target.0].position;
            &&& start.map == end.map
            &&& start.grid.z == end.grid.z
            &&& start.grid.x != end.grid.x || start.grid.y != end.grid.y
            &&& 1 <= k <= abs_int(end.grid.x - start.grid.x) + abs_int(end.grid.y - start.grid.y)
            &&& forall|j: nat|
                1 <= j <= k ==> #[trigger] line_cell(start.grid, end.grid, j) != (end.grid.x as int, end.grid.y as int)
            &&& i32::MIN <= line_cell(start.grid, end.grid, k).0 <= i32::MAX
            &&& i32::MIN <= line_cell(start.grid, end.grid, k).1 <= i32::MAX
            &&& s.maps.contains_key(start.map.0)
            &&& s.maps[start.map.0].cell_at(
                GridPos {
                    x: line_cell(start.grid, end.grid, k).0 as i32,
                    y: line_cell(start.grid, end.grid, k).1 as i32,
                    z: start.grid.z,
                },
            ) matches Some(cell) && cell.sight_blocked
        }),
    ensures
        ranged_plan(s, attacker, target) matches Err(reason) && reason != ActionFailure::NoAmmunition,
        combat_ready(s, attacker.0, target.0) && ranged_plan(s, attacker, target) != Err::<(i16, ItemId), ActionFailure>(
            ActionFailure::NoWeapon,
        ) && ranged_plan(s, attacker, target) != Err::<(i16, ItemId), ActionFailure>(ActionFailure::OutOfRange)
            ==> ranged_plan(s, attacker, target) == Err::<(i16, ItemId), ActionFailure>(ActionFailure::LineBlocked),
        attacker == s.player ==> ranged_threat(s) != Some(target),
{
        let start = s.entities[attacker.0].position;
        let end = s.entities[target.0].position;
        law_walls_block_the_line(s, start, end, k);
        lemma_no_shot_without_sight(s, attacker, target);
    }

    /// Without a clear line between two fighters no shot is planned, and the
    /// player's pick of a hostile to shoot does not name the target.
    proof fn lemma_no_shot_without_sight(s: SimState, attacker: EntityId, target: EntityId)
        requires
            s.entities.contains_key(attacker.0),
            s.entities.contains_key(target.0),
            !line_clear(s, s.entities[attacker.0].position, s.entities[target.0].position),
        ensures
            ranged_plan(s, attacker, target) matches Err(reason) && reason != ActionFailure::NoAmmunition,
            combat_ready(s, attacker.0, target.0) && ranged_plan(s, attacker, target) != Err::<(i16, ItemId), ActionFailure>(
                ActionFailure::NoWeapon,
            ) && ranged_plan(s, attacker, target) != Err::<(i16, ItemId), ActionFailure>(ActionFailure::OutOfRange)
                ==> ranged_plan(s, attacker, target) == Err::<(i16, ItemId), ActionFailure>(ActionFailure::LineBlocked),
                    attacker == s.player ==> ranged_threat(s) != Some(target),
            {
                if attacker == s.player {
                    lemma_unseen_is_not_picked(s, target);
                }
            }

            /// The player's pick of a hostile to shoot is in clear sight.
            #[verifier::spinoff_prover]
            proof fn lemma_unseen_is_not_picked(s: SimState, target: EntityId)
                requires
                    s.entities.contains_key(target.0),
                    !line_clear(s, player_position(s), s.entities[target.0].position),
                ensures
                    ranged_threat(s) != Some(target),
            {
                if ranged_threat(s) == Some(target) {
                    let range = player_weapon_range(s).unwrap();
                    lemma_nearest_is_candidate(s, true, range as int);
                    assert(threat_candidate(s, target.0, true, range as int));
                }
            }



/// Each plain shell verb names its command, in any ASCII case and whatever
/// words follow it.
pub proof fn law_verbs_name_their_commands(line: Seq<char>)
    requires
        trim(line).len() > 0,
        trim(line)[0] != '{',
    ensures
        ({
            let name = lowered(words_of(trim(line))[0]);
            &&& name == "help"@ ==> parsed_command(line) == Ok::<CommandView, Seq<char>>(CommandView::Help)
            &&& name == "metrics"@ ==> parsed_command(line) == Ok::<CommandView, Seq<char>>(CommandView::Metrics)
            &&& name == "world"@ ==> parsed_command(line) == Ok::<CommandView, Seq<char>>(CommandView::World)
            &&& name == "goals"@ ==> parsed_command(line) == Ok::<CommandView, Seq<char>>(CommandView::Goals)
            &&& name == "objectives"@ || name == "quests"@ ==> parsed_command(line) == Ok::<CommandView, Seq<char>>(
                CommandView::Objectives,
            )
            &&& name == "interact"@ || name == "act"@ ==> parsed_command(line) == Ok::<CommandView, Seq<char>>(
                CommandView::Interact,
            )
            &&& name == "inspect"@ ==> parsed_command(line) == Ok::<CommandView, Seq<char>>(CommandView::Inspect)
            &&& name == "study"@ ==> parsed_command(line) == Ok::<CommandView, Seq<char>>(CommandView::Study)
            &&& name == "quit"@ || name == "exit"@ ==> parsed_command(line) == Ok::<CommandView, Seq<char>>(
                CommandView::Quit,
            )
        }),
{
    lemma_command_words_spelled();
}

/// Every shell verb, in any ASCII case, asks for the kind of command it names
/// or is refused: it is never read as another command.
pub proof fn law_verbs_keep_their_kind(line: Seq<char>)
    requires
        trim(line).len() > 0,
        trim(line)[0] != '{',
    ensures
        ({
            let name = lowered(words_of(trim(line))[0]);
            let r = parsed_command(line);
            &&& name == "reset"@ ==> r is Err || r->Ok_0 is Reset
            &&& name == "observe"@ || name == "look"@ ==> r is Ok && r->Ok_0 is Observe
            &&& name == "move"@ ==> r is Err || r->Ok_0 is Move
            &&& name == "wait"@ ==> r is Ok && r->Ok_0 is Wait
            &&& name == "experiment"@ ==> r is Err || r->Ok_0 is Experiment
            &&& name == "cast"@ ==> r is Ok && r->Ok_0 is Cast
            &&& name == "explore"@ || name == "autoplay"@ ==> r is Ok && r->Ok_0 is Explore
            &&& name == "goto"@ ==> r is Err || r->Ok_0 is Goto
            &&& name == "pursue"@ ==> r is Ok && r->Ok_0 is PursueGoal
            &&& name == "aid"@ ==> r is Err || r->Ok_0 is ResolveAid
            &&& name == "slice"@ || name == "campaign"@ ==> r is Ok && r->Ok_0 is PlaySlice
            &&& r is Ok ==> name == "help"@ || name == "reset"@ || name == "observe"@ || name == "look"@ || name
                == "metrics"@ || name == "world"@ || name == "goals"@ || name == "objectives"@ || name == "quests"@
                || name == "move"@ || name == "wait"@ || name == "interact"@ || name == "act"@ || name == "inspect"@
                || name == "study"@ || name == "experiment"@ || name == "cast"@ || name == "explore"@ || name
                == "autoplay"@ || name == "goto"@ || name == "pursue"@ || name == "aid"@ || name == "slice"@ || name
                == "campaign"@ || name == "quit"@ || name == "exit"@
        }),
{
    lemma_command_words_spelled();
}

/// Every JSON command name, in any ASCII case, asks for the kind of command
/// it names or is refused.
pub proof fn law_json_names_keep_their_kind(line: Seq<char>, command: Seq<char>)
    requires
        trim(line).len() > 0,
        trim(line)[0] == '{',
        json_string_value(trim(line), "command"@) == Some(command),
    ensures
        ({
            let name = lowered(command);
            let r = parsed_command(line);
            &&& name == "help"@ ==> r == Ok::<CommandView, Seq<char>>(CommandView::Help)
            &&& name == "metrics"@ ==> r == Ok::<CommandView, Seq<char>>(CommandView::Metrics)
            &&& name == "world"@ ==> r == Ok::<CommandView, Seq<char>>(CommandView::World)
            &&& name == "goals"@ ==> r == Ok::<CommandView, Seq<char>>(CommandView::Goals)
            &&& name == "objectives"@ || name == "quests"@ ==> r == Ok::<CommandView, Seq<char>>(CommandView::Objectives)
            &&& name == "interact"@ || name == "act"@ ==> r == Ok::<CommandView, Seq<char>>(CommandView::Interact)
            &&& name == "inspect"@ ==> r == Ok::<CommandView, Seq<char>>(CommandView::Inspect)
            &&& name == "study"@ ==> r == Ok::<CommandView, Seq<char>>(CommandView::Study)
            &&& name == "quit"@ ==> r == Ok::<CommandView, Seq<char>>(CommandView::Quit)
            &&& name == "reset"@ ==> r is Ok && r->Ok_0 is Reset
            &&& name == "observe"@ ==> r is Ok && r->Ok_0 is Observe
            &&& name == "move"@ ==> r is Err || r->Ok_0 is Move
            &&& name == "wait"@ ==> r is Ok && r->Ok_0 is Wait
            &&& name == "experiment"@ ==> r is Err || r->Ok_0 is Experiment
            &&& name == "cast"@ ==> r is Ok && r->Ok_0 is Cast
            &&& name == "explore"@ || name == "autoplay"@ ==> r is Ok && r->Ok_0 is Explore
            &&& name == "goto"@ ==> r is Err || r->Ok_0 is Goto
            &&& name == "pursue"@ ==> r is Ok && r->Ok_0 is PursueGoal
            &&& name == "aid"@ ==> r is Err || r->Ok_0 is ResolveAid
            &&& name == "slice"@ || name == "campaign"@ ==> r is Ok && r->Ok_0 is PlaySlice
        }),
{
    lemma_command_words_spelled();
}

/// How the command words are spelled.
proof fn lemma_command_words_spelled()
    ensures
        "help"@ == seq!['h', 'e', 'l', 'p'],
        "reset"@ == seq!['r', 'e', 's', 'e', 't'],
        "observe"@ == seq!['o', 'b', 's', 'e', 'r', 'v', 'e'],
        "look"@ == seq!['l', 'o', 'o', 'k'],
        "metrics"@ == seq!['m', 'e', 't', 'r', 'i', 'c', 's'],
        "world"@ == seq!['w', 'o', 'r', 'l', 'd'],
        "goals"@ == seq!['g', 'o', 'a', 'l', 's'],
        "objectives"@ == seq!['o', 'b', 'j', 'e', 'c', 't', 'i', 'v', 'e', 's'],
        "quests"@ == seq!['q', 'u', 'e', 's', 't', 's'],
        "move"@ == seq!['m', 'o', 'v', 'e'],
        "wait"@ == seq!['w', 'a', 'i', 't'],
        "interact"@ == seq!['i', 'n', 't', 'e', 'r', 'a', 'c', 't'],
        "act"@ == seq!['a', 'c', 't'],
        "inspect"@ == seq!['i', 'n', 's', 'p', 'e', 'c', 't'],
        "study"@ == seq!['s', 't', 'u', 'd', 'y'],
        "experiment"@ == seq!['e', 'x', 'p', 'e', 'r', 'i', 'm', 'e', 'n', 't'],
        "cast"@ == seq!['c', 'a', 's', 't'],
        "explore"@ == seq!['e', 'x', 'p', 'l', 'o', 'r', 'e'],
        "autoplay"@ == seq!['a', 'u', 't', 'o', 'p', 'l', 'a', 'y'],
        "goto"@ == seq!['g', 'o', 't', 'o'],
        "pursue"@ == seq!['p', 'u', 'r', 's', 'u', 'e'],
        "aid"@ == seq!['a', 'i', 'd'],
        "slice"@ == seq!['s', 'l', 'i', 'c', 'e'],
        "campaign"@ == seq!['c', 'a', 'm', 'p', 'a', 'i', 'g', 'n'],
        "quit"@ == seq!['q', 'u', 'i', 't'],
        "exit"@ == seq!['e', 'x', 'i', 't'],
{
    reveal_strlit("help");
    assert("help"@ =~= seq!['h', 'e', 'l', 'p']);
    reveal_strlit("reset");
    assert("reset"@ =~= seq!['r', 'e', 's', 'e', 't']);
    reveal_strlit("observe");
    assert("observe"@ =~= seq!['o', 'b', 's', 'e', 'r', 'v', 'e']);
    reveal_strlit("look");
    assert("look"@ =~= seq!['l', 'o', 'o', 'k']);
    reveal_strlit("metrics");
    assert("metrics"@ =~= seq!['m', 'e', 't', 'r', 'i', 'c', 's']);
    reveal_strlit("world");
    assert("world"@ =~= seq!['w', 'o', 'r', 'l', 'd']);
    reveal_strlit("goals");
    assert("goals"@ =~= seq!['g', 'o', 'a', 'l', 's']);
    reveal_strlit("objectives");
    assert("objectives"@ =~= seq!['o', 'b', 'j', 'e', 'c', 't', 'i', 'v', 'e', 's']);
    reveal_strlit("quests");
    assert("quests"@ =~= seq!['q', 'u', 'e', 's', 't', 's']);
    reveal_strlit("move");
    assert("move"@ =~= seq!['m', 'o', 'v', 'e']);
    reveal_strlit("wait");
    assert("wait"@ =~= seq!['w', 'a', 'i', 't']);
    reveal_strlit("interact");
    assert("interact"@ =~= seq!['i', 'n', 't', 'e', 'r', 'a', 'c', 't']);
    reveal_strlit("act");
    assert("act"@ =~= seq!['a', 'c', 't']);
    reveal_strlit("inspect");
    assert("inspect"@ =~= seq!['i', 'n', 's', 'p', 'e', 'c', 't']);
    reveal_strlit("study");
    assert("study"@ =~= seq!['s', 't', 'u', 'd', 'y']);
    reveal_strlit("experiment");
    assert("experiment"@ =~= seq!['e', 'x', 'p', 'e', 'r', 'i', 'm', 'e', 'n', 't']);
    reveal_strlit("cast");
    assert("cast"@ =~= seq!['c', 'a', 's', 't']);
    reveal_strlit("explore");
    assert("explore"@ =~= seq!['e', 'x', 'p', 'l', 'o', 'r', 'e']);
    reveal_strlit("autoplay");
    assert("autoplay"@ =~= seq!['a', 'u', 't', 'o', 'p', 'l', 'a', 'y']);
    reveal_strlit("goto");
    assert("goto"@ =~= seq!['g', 'o', 't', 'o']);
    reveal_strlit("pursue");
    assert("pursue"@ =~= seq!['p', 'u', 'r', 's', 'u', 'e']);
    reveal_strlit("aid");
    assert("aid"@ =~= seq!['a', 'i', 'd']);
    reveal_strlit("slice");
    assert("slice"@ =~= seq!['s', 'l', 'i', 'c', 'e']);
    reveal_strlit("campaign");
    assert("campaign"@ =~= seq!['c', 'a', 'm', 'p', 'a', 'i', 'g', 'n']);
    reveal_strlit("quit");
    assert("quit"@ =~= seq!['q', 'u', 'i', 't']);
    reveal_strlit("exit");
    assert("exit"@ =~= seq!['e', 'x', 'i', 't']);
}

/// A command word means the same in any ASCII case: changing the case of the
/// first word of a shell command leaves its reading unchanged.
pub proof fn law_verb_case_is_ignored(words: Seq<Seq<char>>, word: Seq<char>)
    requires
        words.len() >= 1,
        lowered(word) == lowered(words[0]),
    ensures
        shell_command(words.update(0, word)) == shell_command(words),
{
    let other = words.update(0, word);
    assert(other.skip(1) =~= words.skip(1));
    assert(other[0] == word);
    if words.len() > 1 {
        assert(other[1] == words[1]);
    }
    if words.len() > 2 {
        assert(other[2] == words[2]);
    }
}

/// The shell form and the JSON form of an argument-free command agree: a
/// one-word shell line and a JSON object whose "command" is that word (in any
/// ASCII case) read as the same command.
pub proof fn law_shell_and_json_agree(shell_line: Seq<char>, json_line: Seq<char>, command: Seq<char>)
    requires
        trim(shell_line).len() > 0,
        trim(shell_line)[0] != '{',
        words_of(trim(shell_line)).len() == 1,
        trim(json_line).len() > 0,
        trim(json_line)[0] == '{',
        json_string_value(trim(json_line), "command"@) == Some(command),
        lowered(command) == lowered(words_of(trim(shell_line))[0]),
        ({
            let name = lowered(command);
            name == "help"@ || name == "metrics"@ || name == "world"@ || name == "goals"@ || name == "objectives"@
                || name == "quests"@ || name == "interact"@ || name == "act"@ || name == "inspect"@ || name == "study"@
                || name == "quit"@
        }),
    ensures
        parsed_command(shell_line) == parsed_command(json_line),
{
    lemma_command_words_spelled();
}

/// Drinking quenches thirst and eating stills hunger: a carried drink (or
/// food) used while thirsty (or hungry) lowers that need by its hydration (or
/// nourishment), down to zero at most, leaves the other need as it was, and
/// uses up one unit of the item, which stays with the player.
pub proof fn law_drinking_and_eating_meet_their_need(s: SimState, item: ItemId)
    requires
        carries(s, s.player.0, item.0),
        s.items.contains_key(item.0),
        s.items[item.0].quantity > 0,
    ensures
        s.items[item.0].kind is Drink && s.player_needs.thirst > 0 ==> {
            let hydration = s.items[item.0].kind->hydration;
            let (b, o) = immediate_result(s, GameCommand::Drink(item)).unwrap();
            &&& b.player_needs.thirst as int == if s.player_needs.thirst >= hydration {
                s.player_needs.thirst - hydration
            } else {
                0
            }
            &&& b.player_needs.hunger == s.player_needs.hunger
            &&& b.items[item.0].quantity == s.items[item.0].quantity - 1
            &&& b.inventories == s.inventories
            &&& o.advanced_time
        },
        s.items[item.0].kind is Food && s.player_needs.hunger > 0 ==> {
            let nourishment = s.items[item.0].kind->nourishment;
            let (b, o) = immediate_result(s, GameCommand::Eat(item)).unwrap();
            &&& b.player_needs.hunger as int == if s.player_needs.hunger >= nourishment {
                s.player_needs.hunger - nourishment
            } else {
                0
            }
            &&& b.player_needs.thirst == s.player_needs.thirst
            &&& b.items[item.0].quantity == s.items[item.0].quantity - 1
            &&& b.inventories == s.inventories
            &&& o.advanced_time
        },
{
}

/// Entities of different kinds never look alike on screen, creatures are drawn
/// as creatures, and only the player and villagers are drawn as characters.
pub proof fn law_kinds_look_different(first: Entity, second: Entity)
    ensures
        visible_entity(first).appearance == visible_entity(second).appearance ==> first.kind == second.kind,
        first.kind == EntityKind::Creature ==> visible_entity(first).appearance == Appearance::Creature,
        first.kind == EntityKind::Item ==> visible_entity(first).appearance == Appearance::Item,
        visible_entity(first).appearance is Character <==> (first.kind == EntityKind::Player || first.kind
            == EntityKind::Character),
        visible_entity(first).appearance == Appearance::Character(CharacterAppearance::Player) <==> first.kind
            == EntityKind::Player,
{
}

/// What `json_escape` writes is a valid JSON string body that reads back as
/// the original text, whatever the text holds: quotes, backslashes and control
/// characters included.
pub proof fn law_escaped_text_reads_back(text: Seq<char>)
    ensures
        json_decodes(json_escaped(text), text),
    decreases text.len(),
{
    if text.len() > 0 {
        law_escaped_text_reads_back(text.drop_last());
        lemma_escape_char_decodes(text.last());
        lemma_decodes_joined(json_escaped(text.drop_last()), text.drop_last(), escape_char(text.last()), seq![text.last()]);
        assert(text.drop_last() + seq![text.last()] =~= text);
    }
}

/// An error reply carries its message intact: between the quotes that follow
/// `"error":` stands a JSON string body that reads back as the message.
pub proof fn law_error_reply_reads_back(message: Seq<char>, reply: Seq<char>)
    requires
        reply == "{\"ok\":false,\"error\":\""@ + json_escaped(message) + "\"}"@,
    ensures
        exists|body: Seq<char>| reply == "{\"ok\":false,\"error\":\""@ + body + "\"}"@ && json_decodes(body, message),
{
    law_escaped_text_reads_back(message);
}

/// Text with no quote, no backslash and no control character is written into
/// a reply as it stands.
pub proof fn law_plain_text_is_kept(text: Seq<char>)
    requires
        forall|i: int|
            0 <= i < text.len() ==> #[trigger] text[i] != '"' && text[i] != '\\' && (text[i] as u32) >= 0x20 && !(
            0x7f <= (text[i] as u32) && (text[i] as u32) <= 0x9f),
    ensures
        json_escaped(text) == text,
    decreases text.len(),
{
    if text.len() > 0 {
        law_plain_text_is_kept(text.drop_last());
        assert(text[text.len() - 1] == text.last());
        assert(escape_char(text.last()) == seq![text.last()]);
        assert(text.drop_last() + seq![text.last()] =~= text);
    }
}

} // verus!

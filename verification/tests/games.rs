use text_engine::game::{can_play, has_item, Action, Command, Game, Tick};
use text_engine::world::{cacti_mansion, end_rooms, spooky_mansion};
use text_engine::{Item, RoomID};

fn grid(rows: &[&str]) -> Vec<Vec<char>> {
    rows.iter().map(|r| r.chars().collect()).collect()
}

fn rows(m: &Vec<Vec<char>>) -> Vec<String> {
    m.iter().map(|r| r.iter().collect()).collect()
}

fn game(rows: &[&str], pos: (usize, usize), inventory: Vec<Item>) -> Game {
    Game {
        map: grid(rows),
        player_pos: pos,
        player_hp: 2,
        player_score: 0,
        inventory,
        at: RoomID(0),
        prev_point: '.',
    }
}

#[test]
fn a_new_game_starts_in_the_first_room() {
    let rooms = cacti_mansion();
    assert!(can_play(&rooms[0]));
    let g = Game::start(&rooms);
    assert!(g.at == RoomID(0));
    assert_eq!(g.player_pos, (1, 1));
    assert_eq!(g.player_hp, 2);
    assert_eq!(g.player_score, 0);
    assert!(g.inventory.is_empty());
    assert_eq!(g.map.len(), 7);
    assert_eq!(g.map[1][1], '.');
    assert_eq!(g.map.iter().flatten().filter(|&&c| c == '*').count(), 3);
}

#[test]
fn begin_turn_marks_the_player() {
    let mut g = game(&["#####", "|?..#", "#####"], (1, 1), vec![]);
    g.map[1][1] = '&';
    assert!(g.begin_turn());
    assert_eq!(g.prev_point, '&');
    assert_eq!(g.map[1][1], '@');
    let mut g = game(&["#####", "|...#", "#####"], (1, 1), vec![]);
    g.player_hp = 0;
    assert!(!g.begin_turn());
}

#[test]
fn walking_onto_an_item_picks_it_up_once() {
    let mut g = game(&["#####", "|.++#", "#####"], (1, 1), vec![]);
    assert!(g.begin_turn());
    assert_eq!(g.step(Tick::Pressed(Command::Right)), Action::Continue);
    assert_eq!(g.player_pos, (1, 2));
    assert_eq!(rows(&g.map), vec!["#####", "|..+#", "#####"]);
    assert_eq!(g.inventory, vec![Item::Sword]);
    assert!(g.begin_turn());
    assert_eq!(g.step(Tick::Pressed(Command::Right)), Action::Continue);
    assert_eq!(g.player_pos, (1, 3));
    assert_eq!(g.inventory, vec![Item::Sword]);
    assert_eq!(rows(&g.map), vec!["#####", "|...#", "#####"]);
}

#[test]
fn walking_into_an_enemy_costs_a_hit_point() {
    let mut g = game(&["####", "|.*#", "#..#", "####"], (1, 1), vec![]);
    assert!(g.begin_turn());
    assert_eq!(g.step(Tick::Pressed(Command::Right)), Action::Continue);
    assert_eq!(g.player_hp, 1);
    assert_eq!(g.player_score, -100);
    assert_eq!(g.player_pos, (1, 2));
    assert_eq!(rows(&g.map), vec!["####", "|..#", "#..#", "####"]);
}

#[test]
fn walls_send_the_player_back_to_the_start() {
    let mut g = game(&["#####", "|...#", "#...#", "#####"], (2, 2), vec![]);
    g.map[2][2] = '?';
    assert!(g.begin_turn());
    assert_eq!(g.prev_point, '?');
    assert_eq!(g.step(Tick::Pressed(Command::Down)), Action::Continue);
    assert_eq!(g.player_pos, (1, 1));
    assert_eq!(rows(&g.map), vec!["#####", "|?..#", "#.?.#", "#####"]);
}

#[test]
fn a_doorway_needs_the_key() {
    let mut g = game(&["####", "|..#", "####"], (1, 1), vec![]);
    assert!(g.begin_turn());
    assert_eq!(g.step(Tick::Pressed(Command::Left)), Action::DoorLocked);
    assert_eq!(g.player_pos, (1, 1));
    assert_eq!(rows(&g.map), vec!["####", "|..#", "####"]);

    let mut g = game(&["####", "|..#", "####"], (1, 1), vec![Item::Key]);
    assert!(g.begin_turn());
    assert_eq!(g.step(Tick::Pressed(Command::Left)), Action::DoorOpen);
    assert_eq!(g.player_pos, (1, 0));
    assert_eq!(rows(&g.map), vec!["####", "|..#", "####"]);
}

#[test]
fn through_the_doorway_into_the_next_room() {
    let rooms = cacti_mansion();
    let ends = end_rooms();
    let mut g = game(&["####", "|..#", "####"], (1, 1), vec![Item::Key]);
    g.map[1][1] = '+';
    assert!(g.begin_turn());
    assert_eq!(g.step(Tick::Pressed(Command::Left)), Action::DoorOpen);
    assert!(!g.enter_room(&rooms, &ends, RoomID(1)));
    assert!(g.at == RoomID(1));
    assert_eq!(g.player_pos, (1, 1));
    assert_eq!(g.map.len(), 8);
    assert_eq!(g.map[0].len(), 5);
    assert_eq!(g.map[1][1], '+');
    assert_eq!(g.map.iter().flatten().filter(|&&c| c == '*').count(), 3);

    let mut g = game(&["####", "|..#", "####"], (1, 1), vec![Item::Key]);
    assert!(g.begin_turn());
    assert_eq!(g.step(Tick::Pressed(Command::Left)), Action::DoorOpen);
    assert!(g.enter_room(&rooms, &ends, RoomID(3)));
    assert!(g.at == RoomID(3));
    assert_eq!(g.player_pos, (1, 0));
}

#[test]
fn the_sword_strikes_the_eight_cells_around() {
    let mut g = game(&["#####", "|***#", "#*.*#", "#***#", "#####"], (2, 2), vec![Item::Sword]);
    assert!(g.begin_turn());
    assert_eq!(g.step(Tick::Pressed(Command::Strike)), Action::Continue);
    assert_eq!(g.player_score, 800);
    assert_eq!(g.player_pos, (2, 2));
    assert_eq!(rows(&g.map), vec!["#####", "|...#", "#...#", "#...#", "#####"]);
    assert_eq!(g.prev_point, '.');
}

#[test]
fn striking_without_the_sword_does_nothing() {
    let mut g = game(&["#####", "|.*.#", "#...#", "#####"], (2, 2), vec![Item::Key]);
    assert!(g.begin_turn());
    assert_eq!(g.step(Tick::Pressed(Command::Strike)), Action::Continue);
    assert_eq!(g.player_score, 0);
    assert_eq!(rows(&g.map), vec!["#####", "|.*.#", "#...#", "#####"]);
}

#[test]
fn standing_still_leaves_bare_floor() {
    let mut g = game(&["#####", "|...#", "#####"], (1, 2), vec![]);
    g.map[1][2] = '?';
    assert!(g.begin_turn());
    assert_eq!(g.step(Tick::Pressed(Command::Other)), Action::Continue);
    assert_eq!(g.prev_point, '.');
    assert_eq!(rows(&g.map), vec!["#####", "|...#", "#####"]);
    assert!(g.inventory.is_empty());
}

#[test]
fn escape_quits_at_once() {
    let mut g = game(&["#####", "|...#", "#####"], (1, 2), vec![]);
    assert!(g.begin_turn());
    assert_eq!(g.step(Tick::Pressed(Command::Escape)), Action::Quit);
    assert_eq!(g.player_pos, (1, 2));
    assert_eq!(g.map[1][2], '@');
}

#[test]
fn idle_time_brings_an_enemy() {
    let mut g = game(&["#####", "|...#", "#...#", "#####"], (2, 3), vec![]);
    assert!(g.begin_turn());
    assert_eq!(g.step(Tick::Idle), Action::Continue);
    let stars: Vec<(usize, usize)> = (0..4)
        .flat_map(|y| (0..5).map(move |x| (y, x)))
        .filter(|&(y, x)| g.map[y][x] == '*')
        .collect();
    assert_eq!(stars.len(), 1);
    assert!(stars[0] != (1, 1) && stars[0] != (2, 3));
    assert_eq!(g.map[2][3], '.');
}

#[test]
fn a_full_room_stalls() {
    let mut g = game(&["####", "|.*#", "#**#", "####"], (1, 1), vec![]);
    assert!(g.begin_turn());
    assert_eq!(g.step(Tick::Idle), Action::Stalled);
    assert_eq!(g.map[1][1], '@');
}

#[test]
fn score_overflow_is_reported() {
    let mut g = game(&["#####", "|.*.#", "#...#", "#####"], (2, 2), vec![Item::Sword]);
    g.player_score = i32::MAX - 50;
    assert!(g.begin_turn());
    assert_eq!(g.step(Tick::Pressed(Command::Strike)), Action::ScoreOverflow);
    assert_eq!(g.player_score, i32::MAX - 50);
    assert_eq!(g.map[1][2], '*');

    let mut g = game(&["####", "|.*#", "####"], (1, 1), vec![]);
    g.player_score = i32::MIN + 50;
    assert!(g.begin_turn());
    assert_eq!(g.step(Tick::Pressed(Command::Right)), Action::ScoreOverflow);
    assert_eq!(g.player_hp, 2);
}

#[test]
fn has_item_looks_through_the_inventory() {
    assert!(has_item(&vec![Item::Key, Item::Sword], &Item::Sword));
    assert!(!has_item(&vec![Item::Key], &Item::Sword));
    assert!(!has_item(&vec![], &Item::Key));
}

#[test]
fn every_room_can_be_played() {
    for rooms in [spooky_mansion(), cacti_mansion()] {
        for r in &rooms {
            assert!(can_play(r));
        }
    }
}

#[test]
fn spawn_at_counts_free_cells_row_by_row() {
    let mut g = game(&["#####", "|...#", "#...#", "#####"], (2, 3), vec![]);
    assert!(g.begin_turn());
    assert_eq!(g.spawn_at(0), Action::Continue);
    assert_eq!(rows(&g.map), vec!["#####", "|.*.#", "#...#", "#####"]);
    assert_eq!(g.prev_point, '.');

    let mut g = game(&["#####", "|...#", "#...#", "#####"], (2, 3), vec![]);
    assert!(g.begin_turn());
    assert_eq!(g.spawn_at(3), Action::Continue);
    assert_eq!(rows(&g.map), vec!["#####", "|...#", "#.*.#", "#####"]);

    let mut g = game(&["#####", "|.+.#", "#*..#", "#####"], (2, 3), vec![]);
    assert!(g.begin_turn());
    assert_eq!(g.spawn_at(1), Action::Continue);
    assert_eq!(rows(&g.map), vec!["#####", "|.+.#", "#**.#", "#####"]);
}

#[test]
fn a_locked_doorway_leaves_the_room_as_it_was() {
    let mut g = game(&["#####", "|.*.#", "#...|", "#####"], (2, 3), vec![]);
    assert!(g.begin_turn());
    assert_eq!(g.step(Tick::Pressed(Command::Right)), Action::DoorLocked);
    assert_eq!(g.player_pos, (1, 1));
    assert_eq!(g.player_hp, 2);
    assert_eq!(rows(&g.map), vec!["#####", "|.*.#", "#...|", "#####"]);
    assert!(g.begin_turn());
    assert_eq!(rows(&g.map), vec!["#####", "|@*.#", "#...|", "#####"]);
    assert_eq!(g.step(Tick::Pressed(Command::Right)), Action::Continue);
    assert_eq!(g.player_hp, 1);
    assert_eq!(rows(&g.map), vec!["#####", "|...#", "#...|", "#####"]);
}

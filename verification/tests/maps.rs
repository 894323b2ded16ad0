use text_engine::map::{add_enemies, blank_map, can_draw, draw_map, generate_map, item_char, lay_out, open_spots};
use text_engine::world::{cacti_mansion, spooky_mansion};
use text_engine::{Door, Item, Room, RoomID};

fn rows(m: &Vec<Vec<char>>) -> Vec<String> {
    m.iter().map(|r| r.iter().collect()).collect()
}

fn room(w: usize, h: usize, doors: usize, items: Vec<Item>, enemies: usize) -> Room {
    Room {
        name: "Test",
        desc: "",
        doors: (0..doors)
            .map(|_| Door { target: RoomID(0), triggers: vec!["x"], message: None, condition: None })
            .collect(),
        items,
        w,
        h,
        enemies,
    }
}

#[test]
fn blank_map_is_walled_with_a_left_doorway() {
    assert_eq!(rows(&blank_map(5, 4)), vec!["#####", "|...#", "#...#", "#####"]);
    assert_eq!(rows(&blank_map(3, 3)), vec!["###", "|.#", "###"]);
    assert_eq!(rows(&blank_map(1, 2)), vec!["#", "|"]);
    assert_eq!(rows(&blank_map(2, 2)), vec!["##", "|#"]);
}

#[test]
fn item_chars() {
    assert_eq!(item_char(&Item::Sword), '+');
    assert_eq!(item_char(&Item::Key), '?');
    assert_eq!(item_char(&Item::Bow), '&');
    assert_eq!(item_char(&Item::Arrow), '&');
    assert_eq!(item_char(&Item::Bedroll), '&');
}

#[test]
fn open_spots_skip_walls_and_start() {
    let m = blank_map(4, 4);
    assert_eq!(open_spots(&m, false), vec![(1, 2), (2, 1), (2, 2)]);
    let mut m = blank_map(5, 4);
    m[2][2] = '*';
    m[1][3] = '+';
    assert_eq!(open_spots(&m, false), vec![(1, 2), (1, 3), (2, 1), (2, 2), (2, 3)]);
    assert_eq!(open_spots(&m, true), vec![(1, 2), (2, 1), (2, 3)]);
    assert_eq!(open_spots(&blank_map(3, 3), true), vec![]);
}

fn check_drawn(r: &Room, m: &Vec<Vec<char>>) {
    let (h, w) = (r.h, r.w);
    assert_eq!(m.len(), h);
    let mut stars = 0;
    for y in 0..h {
        assert_eq!(m[y].len(), w);
        for x in 0..w {
            let c = m[y][x];
            let edge = y == 0 || y == h - 1 || x == 0 || x == w - 1;
            if y == 1 && x == 0 {
                assert_eq!(c, '|');
            } else if edge {
                assert!(c == '#' || (c == '|' && x == w - 1 && !r.doors.is_empty()), "{:?}", rows(m));
            } else {
                assert!(c == '.' || c == '*' || r.items.iter().any(|i| item_char(i) == c));
            }
            if c == '*' {
                stars += 1;
            }
        }
    }
    assert_eq!(stars, r.enemies);
    for mark in ['+', '?', '&'] {
        let shown = m.iter().flatten().filter(|&&c| c == mark).count();
        let held = r.items.iter().filter(|i| item_char(i) == mark).count();
        assert!(shown <= held);
    }
    if w >= 2 {
        let doorways = (1..h - 1).filter(|&y| m[y][w - 1] == '|' && w - 1 > 0).count();
        assert!(doorways <= r.doors.len());
    }
    if h >= 3 && w >= 3 {
        assert_eq!(m[1][1], '.');
    }
    if !r.doors.is_empty() {
        assert!((1..h - 1).any(|y| m[y][w - 1] == '|'));
    }
    if let Some(last) = r.items.last() {
        assert!(m.iter().flatten().any(|&c| c == item_char(last)));
    }
}

#[test]
fn generated_maps_hold_what_the_room_asks() {
    for rooms in [spooky_mansion(), cacti_mansion()] {
        for r in &rooms {
            assert!(can_draw(r));
            for _ in 0..50 {
                check_drawn(r, &generate_map(r));
            }
        }
    }
}

#[test]
fn crowded_room_is_filled_exactly() {
    let r = room(4, 4, 1, vec![Item::Sword], 2);
    assert!(can_draw(&r));
    for _ in 0..50 {
        let m = generate_map(&r);
        check_drawn(&r, &m);
        let inner: String = [m[1][2], m[2][1], m[2][2]].iter().collect();
        assert_eq!(inner.matches('*').count(), 2);
        assert_eq!(inner.matches('+').count(), 1);
    }
}

#[test]
fn small_rooms_without_contents() {
    let r = room(1, 2, 0, vec![], 0);
    assert!(can_draw(&r));
    assert_eq!(rows(&generate_map(&r)), vec!["#", "|"]);
    let r = room(3, 3, 2, vec![], 0);
    assert!(can_draw(&r));
    assert_eq!(rows(&generate_map(&r)), vec!["###", "|.|", "###"]);
}

#[test]
fn can_draw_refuses_what_cannot_be_drawn() {
    assert!(!can_draw(&room(0, 5, 0, vec![], 0)));
    assert!(!can_draw(&room(5, 1, 0, vec![], 0)));
    assert!(!can_draw(&room(5, 2, 1, vec![], 0)));
    assert!(!can_draw(&room(2, 5, 0, vec![Item::Key], 0)));
    assert!(!can_draw(&room(3, 3, 0, vec![], 1)));
    assert!(!can_draw(&room(4, 4, 0, vec![Item::Key], 3)));
    assert!(can_draw(&room(4, 4, 0, vec![Item::Key], 2)));
    assert!(can_draw(&room(4, 4, 0, vec![Item::Key; 7], 0)));
    assert!(!can_draw(&room(3, 3, 0, vec![Item::Key], 0)));
    assert!(!can_draw(&room(4, 4, 0, vec![Item::Key; 5], 1)));
    assert!(can_draw(&room(5, 4, 0, vec![Item::Key; 2], 3)));
    assert!(!can_draw(&room(5, 4, 0, vec![Item::Key; 2], 4)));
}

#[test]
fn chance_moves_items_and_doorways() {
    let r = room(6, 8, 1, vec![Item::Key], 0);
    let mut item_cells = std::collections::HashSet::new();
    let mut door_rows = std::collections::HashSet::new();
    for _ in 0..300 {
        let m = generate_map(&r);
        for y in 0..8 {
            for x in 0..6 {
                if m[y][x] == '?' {
                    item_cells.insert((y, x));
                }
            }
            if m[y][5] == '|' {
                door_rows.insert(y);
            }
        }
    }
    assert!(item_cells.len() > 1);
    assert!(door_rows.len() > 1);
}

#[test]
fn draw_map_follows_its_numbers() {
    let r = room(5, 4, 1, vec![Item::Sword, Item::Key], 2);
    let m = draw_map(&r, &vec![2], &vec![0, 4], &vec![0, 0]);
    assert_eq!(rows(&m), vec!["#####", "|.+*#", "#*.?|", "#####"]);
    let m = draw_map(&r, &vec![1], &vec![4, 4], &vec![2, 1]);
    assert_eq!(rows(&m), vec!["#####", "|..*|", "#*.?#", "#####"]);
}

#[test]
fn lay_out_then_enemies() {
    let r = room(5, 4, 0, vec![Item::Bow], 1);
    let mut m = lay_out(&r, &vec![], &vec![1]);
    assert_eq!(rows(&m), vec!["#####", "|..&#", "#...#", "#####"]);
    add_enemies(&mut m, &r, &vec![3]);
    assert_eq!(rows(&m), vec!["#####", "|..&#", "#..*#", "#####"]);
}

#[test]
fn more_items_than_spots_share_them() {
    let r = room(4, 4, 0, vec![Item::Key, Item::Sword, Item::Bow, Item::Key, Item::Arrow], 0);
    assert!(can_draw(&r));
    for _ in 0..50 {
        let m = generate_map(&r);
        check_drawn(&r, &m);
    }
}

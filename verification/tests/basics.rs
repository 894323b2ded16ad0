use text_engine::text::{confirms, phrase_of, same_text, take_key, trim_input, white_space, Keystroke};
use text_engine::{Item, RoomID};

#[test]
fn it_works() {
    assert_eq!(2 + 2, 4);
}

#[test]
fn room_ids_compare_by_index() {
    assert!(RoomID(2) == RoomID(2));
    assert!(RoomID(2) != RoomID(3));
    assert_eq!(RoomID(4).0, 4);
}

#[test]
fn items_compare_by_kind() {
    assert!(Item::Sword == Item::Sword);
    assert!(Item::Sword != Item::Key);
    assert_eq!(format!("{:?}", vec![Item::Bow, Item::Arrow]), "[Bow, Arrow]");
}

#[test]
fn trim_strips_both_ends() {
    assert_eq!(trim_input("  go north \n"), "go north");
    assert_eq!(trim_input("north"), "north");
    assert_eq!(trim_input(" \t\r\n "), "");
    assert_eq!(trim_input(""), "");
    assert_eq!(trim_input("\u{3000}door\u{a0}"), "door");
    assert_eq!(trim_input("a b"), "a b");
}

#[test]
fn trim_matches_std() {
    for s in ["x", "  x", "x  ", "\u{2009}y z\u{85}", "\u{200b}q", "\n\nw\n"] {
        assert_eq!(trim_input(s), s.trim());
    }
}

#[test]
fn white_space_is_unicode_white_space() {
    for n in 0u32..0x3100 {
        if let Some(c) = char::from_u32(n) {
            assert_eq!(white_space(c), c.is_whitespace(), "{:x}", n);
        }
    }
}

#[test]
fn same_text_compares_characters() {
    assert!(same_text("north", "north"));
    assert!(!same_text("north", "North"));
    assert!(!same_text("north", "nort"));
    assert!(same_text("", ""));
    assert!(same_text("é", "é"));
}

#[test]
fn phrases_are_runs_of_words() {
    assert!(phrase_of("go north", "north"));
    assert!(phrase_of("go north", "go"));
    assert!(phrase_of("go north", "go north"));
    assert!(phrase_of("please go north now", "go north"));
    assert!(!phrase_of("go northward", "north"));
    assert!(!phrase_of("ago north", "go north"));
    assert!(!phrase_of("go  north", "go north"));
    assert!(!phrase_of("north", "nor"));
    assert!(phrase_of("north", "north"));
    assert!(phrase_of("", ""));
    assert!(phrase_of("a  b", ""));
    assert!(phrase_of("a ", ""));
    assert!(!phrase_of("a b", ""));
}

fn runs_of_pieces(t: &str) -> Vec<String> {
    let pieces: Vec<&str> = t.split(' ').collect();
    let mut runs = Vec::new();
    for i in 0..pieces.len() {
        for j in i + 1..=pieces.len() {
            runs.push(pieces[i..j].join(" "));
        }
    }
    runs
}

#[test]
fn phrases_match_runs_of_split_pieces() {
    let texts = ["go north", " fix  painting ", "", "door", "a b c", "go go north"];
    let words = ["go", "north", "go north", "fix", "painting", "fix  painting", "", "door", "b", "a b c", "b c", "x", " fix"];
    for t in texts {
        let runs = runs_of_pieces(t);
        for w in words {
            assert_eq!(phrase_of(t, w), runs.iter().any(|r| r == w), "{:?} {:?}", t, w);
        }
    }
}

#[test]
fn typed_lines_end_at_enter() {
    let mut line = Vec::new();
    assert!(!take_key(&mut line, Keystroke::Char('g')));
    assert!(!take_key(&mut line, Keystroke::OtherKey));
    assert!(!take_key(&mut line, Keystroke::Char('o')));
    assert_eq!(line, vec!['g', 'o']);
    assert!(take_key(&mut line, Keystroke::Enter));
    assert_eq!(line, vec!['g', 'o']);
    assert!(take_key(&mut line, Keystroke::NotAKey));
    assert_eq!(line, vec!['g', 'o']);
}

#[test]
fn only_a_lone_one_confirms() {
    assert!(confirms("1"));
    assert!(!confirms("2"));
    assert!(!confirms(""));
    assert!(!confirms("11"));
    assert!(!confirms(" 1"));
    assert!(!confirms("yes"));
}

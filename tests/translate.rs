use brainfuck::operation::{lex_str, Operation};
use brainfuck::program::{get_bracket_map, Error, Program};

fn ops(text: &str) -> Vec<Operation> {
    lex_str(text)
}

#[test]
fn from_char_maps_the_eight_characters() {
    assert_eq!(Operation::from_char('>'), Some(Operation::IncrementDp));
    assert_eq!(Operation::from_char('<'), Some(Operation::DecrementDp));
    assert_eq!(Operation::from_char('+'), Some(Operation::IncrementByte));
    assert_eq!(Operation::from_char('-'), Some(Operation::DecrementByte));
    assert_eq!(Operation::from_char('.'), Some(Operation::OutputByte));
    assert_eq!(Operation::from_char(','), Some(Operation::InputByte));
    assert_eq!(Operation::from_char('['), Some(Operation::LeftBracket));
    assert_eq!(Operation::from_char(']'), Some(Operation::RightBracket));
}

#[test]
fn from_char_drops_other_characters() {
    assert_eq!(Operation::from_char('a'), None);
    assert_eq!(Operation::from_char(' '), None);
    assert_eq!(Operation::from_char('\n'), None);
    assert_eq!(Operation::from_char('é'), None);
}

#[test]
fn lexing_keeps_order_and_skips_commentary() {
    assert_eq!(
        ops("a+ b[-]\n.é,"),
        vec![
            Operation::IncrementByte,
            Operation::LeftBracket,
            Operation::DecrementByte,
            Operation::RightBracket,
            Operation::OutputByte,
            Operation::InputByte,
        ]
    );
    assert!(ops("").is_empty());
    assert!(ops("no instructions here").is_empty());
}

#[test]
fn unmatched_close_is_a_mismatch() {
    assert_eq!(Program::try_from("]").err(), Some(Error::BracketMismatch));
    assert_eq!(Program::try_from("+]").err(), Some(Error::BracketMismatch));
    assert_eq!(Program::try_from("[]]").err(), Some(Error::BracketMismatch));
}

#[test]
fn unmatched_open_is_a_mismatch() {
    assert_eq!(Program::try_from("[").err(), Some(Error::BracketMismatch));
    assert_eq!(Program::try_from("[[]").err(), Some(Error::BracketMismatch));
}

#[test]
fn close_before_open_is_a_mismatch() {
    assert_eq!(Program::try_from("][").err(), Some(Error::BracketMismatch));
}

#[test]
fn nested_balanced_brackets_translate() {
    let p = Program::try_from("[[]]").unwrap();
    assert_eq!(p.len(), 4);
    assert_eq!(p.jump_target(0), 3);
    assert_eq!(p.jump_target(3), 0);
    assert_eq!(p.jump_target(1), 2);
    assert_eq!(p.jump_target(2), 1);
}

#[test]
fn empty_text_translates_to_empty_program() {
    let p = Program::try_from("").unwrap();
    assert_eq!(p.len(), 0);
}

#[test]
fn positions_count_operations_not_characters() {
    let p = Program::try_from("x [ y + z ] w").unwrap();
    assert_eq!(p.len(), 3);
    assert_eq!(p.op_at(0), Operation::LeftBracket);
    assert_eq!(p.op_at(1), Operation::IncrementByte);
    assert_eq!(p.op_at(2), Operation::RightBracket);
    assert_eq!(p.jump_target(0), 2);
    assert_eq!(p.jump_target(2), 0);
}

#[test]
fn jump_table_pairs_both_directions() {
    let text = "+[>[-]<[>+<-]]";
    let p = Program::try_from(text).unwrap();
    let pairs = [(1usize, 13usize), (3, 5), (7, 12)];
    for (i, j) in pairs {
        assert_eq!(p.jump_target(i), j);
        assert_eq!(p.jump_target(j), i);
    }
}

#[test]
fn translation_is_deterministic() {
    let text = "++[>+[-]<-]comment.,";
    let a = Program::try_from(text).unwrap();
    let b = Program::try_from(text).unwrap();
    assert_eq!(a.len(), b.len());
    for i in 0..a.len() {
        assert_eq!(a.op_at(i), b.op_at(i));
        match a.op_at(i) {
            Operation::LeftBracket | Operation::RightBracket => {
                assert_eq!(a.jump_target(i), b.jump_target(i))
            }
            _ => {}
        }
    }
}

#[test]
fn bracket_map_has_two_entries_per_pair() {
    let m = get_bracket_map(&ops("[+[]-]")).unwrap();
    assert_eq!(m.len(), 4);
    assert_eq!(m.get(&0), Some(&5));
    assert_eq!(m.get(&5), Some(&0));
    assert_eq!(m.get(&2), Some(&3));
    assert_eq!(m.get(&3), Some(&2));
    assert_eq!(m.get(&1), None);
}

#[test]
fn bracket_map_without_brackets_is_empty() {
    let m = get_bracket_map(&ops("+-<>.,")).unwrap();
    assert!(m.is_empty());
}

#[test]
fn bracket_map_rejects_mismatch() {
    assert_eq!(get_bracket_map(&ops("]")).err(), Some(Error::BracketMismatch));
    assert_eq!(get_bracket_map(&ops("[[]")).err(), Some(Error::BracketMismatch));
}

use ook::parser::{parse, recognize, split, Instr, TokenSet};

fn ook_phrases() -> Vec<String> {
    vec![
        "Ook. Ook?".to_string(),
        "Ook? Ook.".to_string(),
        "Ook. Ook.".to_string(),
        "Ook! Ook!".to_string(),
        "Ook. Ook!".to_string(),
        "Ook! Ook.".to_string(),
        "Ook! Ook?".to_string(),
        "Ook? Ook!".to_string(),
    ]
}

fn token_set(p: &Vec<String>) -> TokenSet<'_> {
    TokenSet {
        advance: &p[0],
        devance: &p[1],
        increment: &p[2],
        decrement: &p[3],
        set: &p[4],
        print: &p[5],
        jump_forward: &p[6],
        jump_back: &p[7],
    }
}

#[test]
fn split_pairs_consecutive_words() {
    let r = split("a b c d".to_string());
    assert_eq!(r, vec!["a b".to_string(), "c d".to_string()]);
}

#[test]
fn split_drops_odd_trailing_word() {
    let r = split("a b c".to_string());
    assert_eq!(r, vec!["a b".to_string()]);
}

#[test]
fn split_of_empty_text_is_empty() {
    let r = split("".to_string());
    assert!(r.is_empty());
}

#[test]
fn split_pairs_empty_word_after_trailing_space() {
    // A trailing space closes a third, empty word, which is the odd one out.
    let r = split("a b ".to_string());
    assert_eq!(r, vec!["a b".to_string()]);
}

#[test]
fn split_keeps_empty_words_between_adjacent_spaces() {
    let r = split("a  b".to_string());
    assert_eq!(r, vec!["a ".to_string()]);
}

#[test]
fn recognize_maps_each_phrase_to_its_operation() {
    let p = ook_phrases();
    let ts = token_set(&p);
    assert_eq!(recognize(&ts, &"Ook. Ook?".to_string()), Some(Instr::Advance));
    assert_eq!(recognize(&ts, &"Ook? Ook.".to_string()), Some(Instr::Devance));
    assert_eq!(recognize(&ts, &"Ook. Ook.".to_string()), Some(Instr::Increment));
    assert_eq!(recognize(&ts, &"Ook! Ook!".to_string()), Some(Instr::Decrement));
    assert_eq!(recognize(&ts, &"Ook. Ook!".to_string()), Some(Instr::SetFromInput));
    assert_eq!(recognize(&ts, &"Ook! Ook.".to_string()), Some(Instr::Print));
    assert_eq!(recognize(&ts, &"Ook! Ook?".to_string()), Some(Instr::JumpForward));
    assert_eq!(recognize(&ts, &"Ook? Ook!".to_string()), Some(Instr::JumpBack));
    assert_eq!(recognize(&ts, &"Ook, Ook,".to_string()), None);
}

#[test]
fn parse_two_increments_then_print() {
    let p = ook_phrases();
    let ts = token_set(&p);
    let parsed = parse(&ts, "Ook. Ook. Ook. Ook. Ook! Ook.".to_string());
    assert_eq!(parsed.tokens, vec![Instr::Increment, Instr::Increment, Instr::Print]);
    assert_eq!(parsed.bracket_map, vec![None, None, None]);
}

#[test]
fn parse_drops_unrecognized_phrases_without_a_slot() {
    let p = ook_phrases();
    let ts = token_set(&p);
    let parsed = parse(&ts, "hello there Ook. Ook. general comment Ook! Ook.".to_string());
    assert_eq!(parsed.tokens, vec![Instr::Increment, Instr::Print]);
}

#[test]
fn parse_of_plain_text_is_empty_program() {
    let p = ook_phrases();
    let ts = token_set(&p);
    let parsed = parse(&ts, "the quick brown fox jumps over".to_string());
    assert!(parsed.tokens.is_empty());
    assert!(parsed.bracket_map.is_empty());
}

#[test]
fn parse_records_nested_loop_pairs_symmetrically() {
    let p = ook_phrases();
    let ts = token_set(&p);
    let parsed = parse(&ts, "Ook! Ook? Ook! Ook? Ook? Ook! Ook? Ook!".to_string());
    assert_eq!(
        parsed.tokens,
        vec![Instr::JumpForward, Instr::JumpForward, Instr::JumpBack, Instr::JumpBack]
    );
    assert_eq!(parsed.bracket_map, vec![Some(3), Some(2), Some(1), Some(0)]);
    for (i, slot) in parsed.bracket_map.iter().enumerate() {
        let j = slot.unwrap();
        assert_eq!(parsed.bracket_map[j], Some(i));
    }
}

#[test]
fn parse_sequential_loop_pairs() {
    let p = ook_phrases();
    let ts = token_set(&p);
    let parsed = parse(&ts, "Ook! Ook? Ook? Ook! Ook! Ook? Ook? Ook!".to_string());
    assert_eq!(parsed.bracket_map, vec![Some(1), Some(0), Some(3), Some(2)]);
}

#[test]
fn parse_unmatched_close_defaults_to_index_zero() {
    let p = ook_phrases();
    let ts = token_set(&p);
    let parsed = parse(&ts, "Ook. Ook. Ook? Ook!".to_string());
    assert_eq!(parsed.tokens, vec![Instr::Increment, Instr::JumpBack]);
    assert_eq!(parsed.bracket_map, vec![Some(1), Some(0)]);
}

#[test]
fn parse_unmatched_open_leaves_no_partner() {
    let p = ook_phrases();
    let ts = token_set(&p);
    let parsed = parse(&ts, "Ook! Ook? Ook. Ook.".to_string());
    assert_eq!(parsed.tokens, vec![Instr::JumpForward, Instr::Increment]);
    assert_eq!(parsed.bracket_map, vec![None, None]);
}

#[test]
fn parse_phrase_with_trailing_newline_is_not_recognized() {
    let p = ook_phrases();
    let ts = token_set(&p);
    let parsed = parse(&ts, "Ook. Ook. Ook! Ook.\n".to_string());
    assert_eq!(parsed.tokens, vec![Instr::Increment]);
}

use aiss::actor::Actor;
use aiss::play::{
    accused_from_indices, bad_accuse_message, cli_turn, game_size, model_listed, parse_command,
    parse_usize, pick_topic_index, topic_index_from, verdict_name, AccuseError, Command, Turn, MAX_ROUNDS,
};
use aiss::shared::Verdict;

fn actor(id: &str) -> Actor {
    Actor {
        id: id.into(),
        name: id.to_uppercase(),
        avatar: String::new(),
        short_bio: String::new(),
        personality_traits: vec![],
        speech_style: String::new(),
        discussion_lens: String::new(),
        affinity: 5,
        eagerness: 5,
    }
}

#[test]
fn commands_are_read_like_the_prompt_reads_them() {
    assert!(matches!(parse_command("", 3), Command::Empty));
    assert!(matches!(parse_command("  \n", 3), Command::Empty));
    assert!(matches!(parse_command("  /quit ", 3), Command::Quit));
    assert!(matches!(parse_command("/accuse2", 3), Command::Accuse(2)));
    assert!(matches!(parse_command("/accuse 3", 3), Command::Accuse(3)));
    assert!(matches!(parse_command("/accuse+1", 3), Command::Accuse(1)));
    assert!(matches!(parse_command("/accuse4", 3), Command::BadAccuse));
    assert!(matches!(parse_command("/accuse0", 3), Command::BadAccuse));
    assert!(matches!(parse_command("/accuse", 3), Command::BadAccuse));
    assert!(matches!(parse_command("/accuse-1", 3), Command::BadAccuse));
    assert!(matches!(parse_command("/accusex", 3), Command::BadAccuse));
    match parse_command(" 你的來源是？ ", 3) {
        Command::Say(s) => assert_eq!(s, "你的來源是？"),
        other => panic!("unexpected {:?}", other),
    }
    match parse_command("/accusation", 3) {
        Command::Say(s) => assert_eq!(s, "/accusation"),
        other => panic!("unexpected {:?}", other),
    }
}

#[test]
fn numbers_parse_like_str_parse() {
    assert_eq!(parse_usize("42"), Some(42));
    assert_eq!(parse_usize("007"), Some(7));
    assert_eq!(parse_usize("+7"), Some(7));
    assert_eq!(parse_usize("+"), None);
    assert_eq!(parse_usize(""), None);
    assert_eq!(parse_usize(" 1"), None);
    assert_eq!(parse_usize("1a"), None);
    assert_eq!(parse_usize("99999999999999999999999"), None);
    for s in ["0", "12", "+3", "-3", "x", "4294967296"] {
        assert_eq!(parse_usize(s), s.parse::<usize>().ok(), "{s}");
    }
}

#[test]
fn cli_turns_count_rounds() {
    assert!(matches!(cli_turn(0, Command::Empty, false), (Turn::Reprompt, 0)));
    assert!(matches!(cli_turn(0, Command::Empty, true), (Turn::Discuss(None), 1)));
    assert!(matches!(cli_turn(4, Command::Quit, true), (Turn::Quit, 4)));
    assert!(matches!(cli_turn(4, Command::Accuse(2), false), (Turn::Verdict(2), 4)));
    assert!(matches!(cli_turn(4, Command::BadAccuse, false), (Turn::BadAccuse, 4)));
    match cli_turn(MAX_ROUNDS - 1, Command::Say("嗨".into()), false) {
        (Turn::Discuss(Some(s)), r) => {
            assert_eq!(s, "嗨");
            assert_eq!(r, MAX_ROUNDS);
        }
        other => panic!("unexpected {:?}", other),
    }
    assert_eq!(bad_accuse_message(3), "請輸入有效的成員編號（1 到 3）");
}

#[test]
fn web_game_sizes_are_clamped() {
    assert_eq!(game_size(None, None), (3, 1));
    assert_eq!(game_size(Some(9), Some(9)), (5, 4));
    assert_eq!(game_size(Some(0), Some(0)), (2, 1));
    assert_eq!(game_size(Some(4), Some(2)), (4, 2));
}

#[test]
fn accusations_by_member_number() {
    let actors = vec![actor("a1"), actor("a2"), actor("a3")];
    assert_eq!(accused_from_indices(&actors, &[]), Err(AccuseError::NoOneAccused));
    assert_eq!(accused_from_indices(&actors, &[1, 5, 0]), Err(AccuseError::InvalidIndex(5)));
    assert_eq!(accused_from_indices(&actors, &[0]), Err(AccuseError::InvalidIndex(0)));
    assert_eq!(accused_from_indices(&actors, &[3, 1]), Ok(vec!["a3".to_string(), "a1".to_string()]));
    assert_eq!(AccuseError::NoOneAccused.message(), "請至少指控一位成員");
    assert_eq!(AccuseError::InvalidIndex(7).message(), "無效的成員編號：7");
}

#[test]
fn verdict_names() {
    assert_eq!(verdict_name(Verdict::Green), "green");
    assert_eq!(verdict_name(Verdict::Yellow), "yellow");
    assert_eq!(verdict_name(Verdict::Red), "red");
}

#[test]
fn topic_index_is_the_draw_modulo_the_count() {
    assert_eq!(topic_index_from(17, 5), 2);
    assert_eq!(topic_index_from(4, 5), 4);
    assert_eq!(topic_index_from(usize::MAX, 1), 0);
}

#[test]
fn topic_index_is_in_range() {
    assert_eq!(pick_topic_index(1), 0);
    for _ in 0..50 {
        assert!(pick_topic_index(7) < 7);
    }
}

#[test]
fn installed_models_match_name_or_tag() {
    let models = vec!["qwen2.5:7b".to_string(), "llama3".to_string()];
    assert!(model_listed(&models, "qwen2.5"));
    assert!(model_listed(&models, "qwen2.5:7b"));
    assert!(model_listed(&models, "llama3"));
    assert!(!model_listed(&models, "qwen"));
    assert!(!model_listed(&models, "llama"));
    assert!(!model_listed(&[], "llama3"));
}

use aiss::actor::Actor;
use aiss::deception::DeceptionPattern;
use aiss::gateway::{stream_record, ChatChunk};
use aiss::selector::{
    deceptions_for, drawn_pattern, liar_ids_at, pattern_weights, select_at, WEIGHT_SCALE,
};
use aiss::session::ChatTurn;
use aiss::shared::Difficulty;
use aiss::turn_director::{line_up_from_draws, ModeratorDirector, TurnContext};

fn actor(id: &str, name: &str, affinity: u8) -> Actor {
    Actor {
        id: id.into(),
        name: name.into(),
        avatar: String::new(),
        short_bio: String::new(),
        personality_traits: vec![],
        speech_style: String::new(),
        discussion_lens: String::new(),
        affinity,
        eagerness: 5,
    }
}

fn pattern(id: &str, affinity: u8) -> DeceptionPattern {
    DeceptionPattern {
        id: id.into(),
        name_zh: id.into(),
        description: String::new(),
        example: String::new(),
        difficulty: Difficulty::Easy,
        teaching_goal: String::new(),
        affinity,
    }
}

fn turn(speaker_id: &str) -> ChatTurn {
    ChatTurn {
        speaker_id: speaker_id.into(),
        speaker_name: speaker_id.into(),
        content: "...".into(),
        is_liar: false,
    }
}

fn ids(v: &[Actor]) -> Vec<&str> {
    v.iter().map(|a| a.id.as_str()).collect()
}

fn cast() -> Vec<Actor> {
    vec![actor("a", "甲", 1), actor("b", "乙", 2), actor("c", "丙", 3), actor("d", "丁", 4)]
}

#[test]
fn draws_take_from_the_remaining_pool() {
    let actors = cast();
    let r = line_up_from_draws(&actors, &[2, 0, 1]);
    assert_eq!(ids(&r), vec!["c", "a", "d"]);
    let none = line_up_from_draws(&actors, &[]);
    assert!(none.is_empty());
}

#[test]
fn shuffle_positions_give_the_line_up() {
    let actors = cast();
    let sel = select_at(&actors, &[3, 1, 0, 2], 2);
    assert_eq!(ids(&sel), vec!["d", "b"]);
    let liars = liar_ids_at(&sel, &[1, 0], 1);
    assert_eq!(liars, vec!["b".to_string()]);
}

#[test]
fn each_liar_gets_its_drawn_pattern() {
    let liars = vec!["a".to_string(), "c".to_string()];
    let pats = vec![pattern("p1", 3), pattern("p2", 9)];
    let dec = deceptions_for(&liars, &pats);
    assert_eq!(dec.len(), 2);
    assert_eq!(dec.get("a").map(|p| p.id.as_str()), Some("p1"));
    assert_eq!(dec.get("c").map(|p| p.id.as_str()), Some("p2"));
    assert!(dec.get("b").is_none());
}

#[test]
fn drawn_pattern_falls_back_to_the_first() {
    let catalog = vec![pattern("p1", 3), pattern("p2", 9)];
    assert_eq!(drawn_pattern(&catalog, Some(1)).id, "p2");
    assert_eq!(drawn_pattern(&catalog, None).id, "p1");
}

#[test]
fn pattern_weights_are_inverse_to_distance() {
    let catalog = vec![pattern("near", 5), pattern("far", 10), pattern("other", 2)];
    let w = pattern_weights(&actor("x", "X", 5), &catalog);
    assert_eq!(w, vec![WEIGHT_SCALE, WEIGHT_SCALE / 6, WEIGHT_SCALE / 4]);
    assert_eq!(WEIGHT_SCALE % 6, 0);
    assert_eq!(WEIGHT_SCALE % 4, 0);
}

#[test]
fn moderated_line_up_puts_moderator_first_and_cuts() {
    let actors = cast();
    let dir = ModeratorDirector::new("a".into(), "m".into(), 1, 3);
    let picked = vec![actors[2].clone(), actors[0].clone(), actors[1].clone(), actors[3].clone()];
    let r = dir.line_up_with(&actors[0], true, &picked);
    assert_eq!(ids(&r), vec!["a", "c", "b"]);
    let r = dir.line_up_with(&actors[0], false, &picked);
    assert_eq!(ids(&r), vec!["c", "b", "d"]);
    let r = dir.line_up_with(&actors[0], false, &vec![actors[0].clone()]);
    assert!(r.is_empty());
}

#[test]
fn failed_call_keeps_moderator_first() {
    let actors = cast();
    let dir = ModeratorDirector::new("a".into(), "m".into(), 1, 3);
    for _ in 0..30 {
        let ctx = TurnContext { actors: &actors, transcript: &[] };
        let r = dir.pick_next_speakers(&ctx, None);
        assert!(!r.is_empty() && r.len() <= 3);
        assert_eq!(r[0].id, "a");
        assert!(r[1..].iter().all(|x| x.id != "a"));
    }
}

#[test]
fn silence_counts_student_turns_after_last_turn() {
    let speakers = ["a1", "a2", "student", "a1", "student", "a1", "student", "a1", "student", "a1"];
    let transcript: Vec<ChatTurn> = speakers.iter().map(|s| turn(s)).collect();
    let actors = cast();
    let ctx = TurnContext { actors: &actors, transcript: &transcript };
    assert_eq!(ctx.silence_count("a2"), 4);
    assert_eq!(ctx.silence_count("a1"), 0);
    assert_eq!(ctx.silence_count("zz"), 4);
}

#[test]
fn stream_lines_are_trimmed_or_keep_alive() {
    assert_eq!(stream_record("  {\"done\":true}\n"), Some("{\"done\":true}".to_string()));
    assert_eq!(stream_record(" \n\t"), None);
    assert_eq!(stream_record(""), None);
    let c = ChatChunk::keep_alive();
    assert!(c.delta.is_empty() && !c.finished);
}

use aiss::actor::Actor;
use aiss::session::ChatTurn;
use aiss::turn_director::{AlgorithmicDirector, ModeratorDirector, TurnContext};

fn mk_actor(id: &str, name: &str, eagerness: u8) -> Actor {
    Actor {
        id: id.into(),
        name: name.into(),
        avatar: String::new(),
        short_bio: format!("{name} 的簡介"),
        personality_traits: vec!["特質".into()],
        speech_style: "中性".into(),
        discussion_lens: String::new(),
        affinity: 5,
        eagerness,
    }
}

fn mk_actors() -> Vec<Actor> {
    vec![
        mk_actor("a1", "甲", 5),
        mk_actor("a2", "乙", 5),
        mk_actor("a3", "丙", 5),
        mk_actor("a4", "丁", 5),
        mk_actor("a5", "戊", 5),
    ]
}

fn mk_turn(speaker_id: &str, name: &str) -> ChatTurn {
    ChatTurn {
        speaker_id: speaker_id.into(),
        speaker_name: name.into(),
        content: "...".into(),
        is_liar: false,
    }
}

fn mk_moderator_dir() -> ModeratorDirector {
    ModeratorDirector::new("a1".into(), "stub-model".into(), 1, 3)
}

#[test]
fn algorithmic_picks_within_bounds() {
    let actors = mk_actors();
    let dir = AlgorithmicDirector::new(1, 3);
    for _ in 0..30 {
        let ctx = TurnContext { actors: &actors, transcript: &[] };
        let picks = dir.pick_next_speakers(&ctx);
        assert!(picks.len() >= 1 && picks.len() <= 3, "got {}", picks.len());
    }
}

#[test]
fn algorithmic_no_duplicates() {
    let actors = mk_actors();
    let dir = AlgorithmicDirector::new(3, 3);
    for _ in 0..30 {
        let ctx = TurnContext { actors: &actors, transcript: &[] };
        let picks = dir.pick_next_speakers(&ctx);
        let mut ids: Vec<&str> = picks.iter().map(|a| a.id.as_str()).collect();
        ids.sort();
        ids.dedup();
        assert_eq!(ids.len(), picks.len(), "重複了：{:?}", ids);
    }
}

#[test]
fn algorithmic_avoids_back_to_back_same_speaker() {
    let actors = mk_actors();
    let transcript = vec![mk_turn("student", "你"), mk_turn("a1", "甲")];
    let dir = AlgorithmicDirector::new(1, 1);
    let mut a1_count = 0u32;
    for _ in 0..400 {
        let ctx = TurnContext { actors: &actors, transcript: &transcript };
        let picks = dir.pick_next_speakers(&ctx);
        if picks.first().map(|a| a.id.as_str()) == Some("a1") {
            a1_count += 1;
        }
    }
    assert!(a1_count < 32, "a1 不該連續被選太多次：實際 {} / 400", a1_count);
}

#[test]
fn algorithmic_prefers_silent_actors() {
    let actors = mk_actors();
    let mut transcript: Vec<ChatTurn> = Vec::new();
    transcript.push(mk_turn("a1", "甲"));
    transcript.push(mk_turn("a2", "乙"));
    for _ in 0..4 {
        transcript.push(mk_turn("student", "你"));
        transcript.push(mk_turn("a1", "甲"));
    }

    let dir = AlgorithmicDirector::new(1, 1);
    let mut a1_count = 0u32;
    let mut a2_count = 0u32;
    for _ in 0..400 {
        let ctx = TurnContext { actors: &actors, transcript: &transcript };
        let picks = dir.pick_next_speakers(&ctx);
        if let Some(p) = picks.first() {
            match p.id.as_str() {
                "a1" => a1_count += 1,
                "a2" => a2_count += 1,
                _ => {}
            }
        }
    }
    assert!(
        a2_count > a1_count,
        "沉默者 a2 應比常發言的 a1 更常被選：a1={}, a2={}",
        a1_count,
        a2_count
    );
}

#[test]
fn moderator_parses_valid_response() {
    let actors = mk_actors();
    let dir = mk_moderator_dir();
    let ctx = TurnContext { actors: &actors, transcript: &[] };
    let picks = dir.pick_next_speakers(&ctx, Some("乙, 丙"));
    assert_eq!(picks.len(), 3);
    assert_eq!(picks[0].id, "a1", "主持人應在第一位");
    let other_ids: Vec<&str> = picks[1..].iter().map(|a| a.id.as_str()).collect();
    assert!(other_ids.contains(&"a2"));
    assert!(other_ids.contains(&"a3"));
}

#[test]
fn moderator_always_speaks() {
    let actors = mk_actors();
    let dir = mk_moderator_dir();
    let ctx = TurnContext { actors: &actors, transcript: &[] };
    let picks = dir.pick_next_speakers(&ctx, Some("不確定誰要說 抱歉"));
    assert!(!picks.is_empty());
    assert_eq!(picks[0].id, "a1", "主持人應在第一位");
}

#[test]
fn moderator_handles_unknown_names() {
    let actors = mk_actors();
    let dir = mk_moderator_dir();
    let ctx = TurnContext { actors: &actors, transcript: &[] };
    let picks = dir.pick_next_speakers(&ctx, Some("不存在的人, 丁"));
    assert_eq!(picks.len(), 2);
    assert_eq!(picks[0].id, "a1");
    assert_eq!(picks[1].id, "a4");
}

#[test]
fn moderator_drops_self_from_llm_picks() {
    let actors = mk_actors();
    let dir = mk_moderator_dir();
    let ctx = TurnContext { actors: &actors, transcript: &[] };
    let picks = dir.pick_next_speakers(&ctx, Some("甲, 乙"));
    let a1_count = picks.iter().filter(|a| a.id == "a1").count();
    assert_eq!(a1_count, 1, "主持人不應出現兩次");
}

#[test]
fn moderator_silent_when_other_npc_just_spoke() {
    let actors = mk_actors();
    let transcript = vec![mk_turn("a1", "甲"), mk_turn("a2", "乙")];
    let dir = mk_moderator_dir();
    let ctx = TurnContext { actors: &actors, transcript: &transcript };
    let picks = dir.pick_next_speakers(&ctx, Some("丁"));
    assert!(
        picks.iter().all(|a| a.id != "a1"),
        "主持人剛說過就不該再說：{:?}",
        picks.iter().map(|a| a.id.as_str()).collect::<Vec<_>>()
    );
}

#[test]
fn moderator_speaks_after_student_question() {
    let actors = mk_actors();
    let transcript = vec![mk_turn("a1", "甲"), mk_turn("a2", "乙"), mk_turn("student", "你")];
    let dir = mk_moderator_dir();
    let ctx = TurnContext { actors: &actors, transcript: &transcript };
    let picks = dir.pick_next_speakers(&ctx, Some("丙"));
    assert!(picks.iter().any(|a| a.id == "a1"), "學生提問後主持人應發言");
}

#[test]
fn moderator_breaks_long_silence() {
    let actors = mk_actors();
    let mut transcript = vec![mk_turn("a1", "甲")];
    for _ in 0..2 {
        transcript.push(mk_turn("student", "你"));
        transcript.push(mk_turn("a2", "乙"));
    }
    let dir = mk_moderator_dir();
    let ctx = TurnContext { actors: &actors, transcript: &transcript };
    let picks = dir.pick_next_speakers(&ctx, Some("丙"));
    assert!(
        picks.iter().any(|a| a.id == "a1"),
        "主持人久未發言應補上：{:?}",
        picks.iter().map(|a| a.id.as_str()).collect::<Vec<_>>()
    );
}

#[test]
fn moderator_missing_moderator_falls_back() {
    let actors = mk_actors();
    let dir = ModeratorDirector::new("nonexistent".into(), "stub".into(), 1, 3);
    let ctx = TurnContext { actors: &actors, transcript: &[] };
    assert!(dir.moderator_prompt(&ctx).is_none());
    let picks = dir.pick_next_speakers(&ctx, Some("丁"));
    assert!(!picks.is_empty(), "應 fallback 給結果");
}

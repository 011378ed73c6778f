use aiss::actor::Actor;
use aiss::deception::{DeceptionMap, DeceptionPattern};
use aiss::pacing::PacingConfig;
use aiss::session::GameSession;
use aiss::shared::{Difficulty, Topic, Verdict};

fn make_actor(id: &str, name: &str, affinity: u8) -> Actor {
    Actor {
        id: id.into(),
        name: name.into(),
        avatar: String::new(),
        short_bio: format!("{name} 的簡介"),
        personality_traits: vec!["特質一".into(), "特質二".into()],
        speech_style: "正式".into(),
        discussion_lens: String::new(),
        affinity,
        eagerness: 5,
    }
}

fn make_pattern(id: &str) -> DeceptionPattern {
    DeceptionPattern {
        id: id.into(),
        name_zh: "假引用".into(),
        description: "編造不存在的研究".into(),
        example: "根據某哈佛研究...".into(),
        difficulty: Difficulty::Medium,
        teaching_goal: "學會查證".into(),
        affinity: 9,
    }
}

fn make_topic() -> Topic {
    Topic {
        id: "q-test".into(),
        question: "海豚是魚類嗎？".into(),
        correct_answer: "不是，是哺乳類".into(),
        difficulty: Difficulty::Easy,
        tags: vec!["生物".into()],
    }
}

fn make_session(liar_ids: Vec<String>) -> GameSession {
    let actors = vec![
        make_actor("a1", "甲", 9),
        make_actor("a2", "乙", 5),
        make_actor("a3", "丙", 3),
    ];
    let mut deceptions = DeceptionMap::new();
    for id in &liar_ids {
        deceptions.insert(id.clone(), make_pattern("p1"));
    }
    GameSession::new(
        actors,
        liar_ids,
        deceptions,
        make_topic(),
        PacingConfig { min_response_delay_ms: 0, max_response_delay_ms: 0, ..Default::default() },
    )
}

#[test]
fn compose_prompt_for_liar_contains_secret_instruction() {
    let session = make_session(vec!["a1".into()]);
    let liar = session.actors[0].clone();
    let prompt = session.compose_system_prompt(&liar);
    assert!(prompt.contains("秘密指令"), "騙子的 prompt 應該有秘密指令");
    assert!(prompt.contains("假引用"), "應包含騙術名稱");
    assert!(!prompt.contains("正確答案是"), "騙子不該被告知正確答案");
}

#[test]
fn compose_prompt_for_honest_contains_correct_answer() {
    let session = make_session(vec!["a1".into()]);
    let honest = session.actors[1].clone();
    let prompt = session.compose_system_prompt(&honest);
    assert!(prompt.contains("誠實"), "誠實演員的 prompt 應強調誠實");
    assert!(prompt.contains("正確答案是"), "誠實演員應被告知正確答案");
    assert!(!prompt.contains("秘密指令"), "誠實演員不該有秘密指令");
}

#[test]
fn compose_prompt_contains_taiwan_language_rule() {
    let session = make_session(vec!["a1".into()]);
    let actor = session.actors[0].clone();
    let prompt = session.compose_system_prompt(&actor);
    assert!(prompt.contains("臺灣繁體中文"), "prompt 應包含臺灣用語指示");
    assert!(prompt.contains("影片"), "prompt 應包含用語對照");
}

#[test]
fn score_correct_with_long_reason_returns_green() {
    let session = make_session(vec!["a1".into()]);
    let reason = "他引用的哈佛研究我查不到，看起來像是編造的，而且年份也對不上";
    let (verdict, feedback) = session.score("a1", reason);
    assert_eq!(verdict, Verdict::Green);
    assert!(feedback.contains("🟢"));
}

#[test]
fn score_correct_with_short_reason_returns_yellow() {
    let session = make_session(vec!["a1".into()]);
    let (verdict, feedback) = session.score("a1", "亂講");
    assert_eq!(verdict, Verdict::Yellow);
    assert!(feedback.contains("🟡"));
}

#[test]
fn score_wrong_returns_red() {
    let session = make_session(vec!["a1".into()]);
    let (verdict, feedback) = session.score("a2", "我覺得他可疑");
    assert_eq!(verdict, Verdict::Red);
    assert!(feedback.contains("🔴"));
    assert!(feedback.contains("甲"), "feedback 應提示真正的騙子");
}

#[test]
fn student_says_appends_to_transcript() {
    let mut session = make_session(vec!["a1".into()]);
    assert_eq!(session.transcript.len(), 0);
    session.student_says("你的證據是什麼？".into());
    assert_eq!(session.transcript.len(), 1);
    assert_eq!(session.transcript[0].speaker_id, "student");
}

#[test]
fn actor_respond_uses_mock_provider() {
    let mut session = make_session(vec!["a1".into()]);
    assert!(session.messages_for_actor("a1").is_ok());
    let fragments = session.actor_respond("a1", "mock 回應").unwrap();
    assert_eq!(fragments, vec!["mock 回應".to_string()]);
    assert_eq!(session.transcript.len(), 1);
    assert_eq!(session.transcript[0].speaker_id, "a1");
    assert_eq!(session.transcript[0].content, "mock 回應");
    assert!(session.transcript[0].is_liar);
}

#[test]
fn actor_respond_splits_pipe_into_multiple_turns() {
    let mut session = make_session(vec!["a1".into()]);
    let fragments = session
        .actor_respond("a1", "我覺得不太對|因為沒看過證據|你查過嗎")
        .unwrap();
    assert_eq!(fragments.len(), 3);
    assert_eq!(session.transcript.len(), 3);
    for turn in &session.transcript {
        assert_eq!(turn.speaker_id, "a1");
        assert!(turn.is_liar);
    }
}

#[test]
fn actor_respond_unknown_id_errors() {
    let mut session = make_session(vec!["a1".into()]);
    assert!(session.messages_for_actor("nonexistent").is_err());
    let result = session.actor_respond("nonexistent", "mock 回應");
    assert!(result.is_err());
    assert_eq!(session.transcript.len(), 0);
}

#[test]
fn own_lines_close_the_system_message() {
    let mut session = make_session(vec!["a1".into()]);
    let honest = session.actors[1].clone();
    let only_student = {
        session.student_says("海豚會呼吸嗎？".into());
        session.build_messages_for_actor(&honest)
    };
    assert_eq!(only_student[0].content, session.compose_system_prompt(&honest));
    session.actor_respond("a2", "牠們用肺呼吸").unwrap();
    let msgs = session.build_messages_for_actor(&honest);
    let sys = &msgs[0].content;
    assert!(sys.starts_with(&session.compose_system_prompt(&honest)));
    assert!(sys.ends_with("【已禁用的句子】\n「牠們用肺呼吸」\n\n請在這條禁令的限制下，重新發想一段不同的話。"));
    assert!(msgs[1..].iter().all(|m| m.role == aiss::gateway::Role::User));
}

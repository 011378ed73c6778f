use aiss::actor::{default_eagerness, Actor};
use aiss::debug_log::{
    actor_turn_entry, format_hms, is_truthy, session_header, student_turn_entry, timestamp_now,
};
use aiss::deception::{DeceptionMap, DeceptionPattern};
use aiss::fragments::{
    cap_emojis, is_dangling_tail, split_by_punctuation, split_into_fragments, starts_with_paren,
    strip_filler,
};
use aiss::gateway::{
    build_messages, effective_model, ollama_capabilities, token_usage, ChatMessage, TokenUsage,
};
use aiss::importer::{
    detect_format, is_difficulty_word, output_file_name, render_actor_yaml, render_deception_yaml,
    validate_actor_rows, validate_deception_rows, ActorRow, DeceptionRow, FormatError,
};
use aiss::pacing::PacingConfig;
use aiss::selector::{affinity_distance, assemble_session, SelectError};
use aiss::session::{GameSession, SessionError};
use aiss::shared::{Difficulty, Topic};
use aiss::turn_director::{should_moderator_speak, TurnContext};

fn actor(id: &str, name: &str) -> Actor {
    Actor {
        id: id.into(),
        name: name.into(),
        avatar: String::new(),
        short_bio: String::new(),
        personality_traits: vec![],
        speech_style: String::new(),
        discussion_lens: String::new(),
        affinity: 5,
        eagerness: 5,
    }
}

fn topic() -> Topic {
    Topic {
        id: "t".into(),
        question: "月亮會發光嗎？".into(),
        correct_answer: "不會，是反射陽光".into(),
        difficulty: Difficulty::Medium,
        tags: vec![],
    }
}

fn deception_row(difficulty: &str, affinity: u8) -> DeceptionRow {
    DeceptionRow {
        id: "d1".into(),
        name_zh: "假權威".into(),
        description: "冒用專家".into(),
        difficulty: difficulty.into(),
        affinity,
        teaching_goal: "查證身分".into(),
        example: "某教授說".into(),
    }
}

// ── fragments at the edges ──────────────────────────────────────────────────

#[test]
fn fragments_of_blank_or_period_only_input_are_empty() {
    assert!(split_into_fragments("").is_empty());
    assert!(split_into_fragments("   ").is_empty());
    assert!(split_into_fragments("。。..").is_empty());
    assert!(split_into_fragments("|｜|").is_empty());
}

#[test]
fn punctuation_only_segment_stays_whole() {
    assert_eq!(split_by_punctuation(" ，， "), vec!["，，"]);
    assert_eq!(split_by_punctuation("對！錯？好"), vec!["對！", "錯？", "好"]);
}

#[test]
fn cap_emojis_with_zero_drops_all() {
    assert_eq!(cap_emojis("好😀棒🎉", 0), "好棒");
    assert_eq!(cap_emojis("好😀棒🎉", 2), "好😀棒🎉");
}

#[test]
fn strip_filler_keeps_leading_and_inner() {
    assert_eq!(strip_filler("啊"), "啊");
    assert_eq!(strip_filler("好啊～真的阿!"), "好～真的!");
    assert_eq!(strip_filler("阿姨來了"), "阿姨來了");
}

#[test]
fn dangling_tails_and_stage_directions() {
    assert!(is_dangling_tail(" 而且 "));
    assert!(is_dangling_tail("舉例來說"));
    assert!(!is_dangling_tail("而且很好"));
    assert!(starts_with_paren("（笑）"));
    assert!(starts_with_paren(")"));
    assert!(!starts_with_paren("回音定位（Echolocation）"));
    assert!(!starts_with_paren(""));
}

#[test]
fn deception_map_reads_back_what_was_set() {
    let pat = |id: &str| DeceptionPattern {
        id: id.into(),
        name_zh: id.into(),
        description: String::new(),
        example: String::new(),
        difficulty: Difficulty::Easy,
        teaching_goal: String::new(),
        affinity: 3,
    };
    let mut m = DeceptionMap::new();
    assert_eq!(m.len(), 0);
    m.insert("a1".into(), pat("p1"));
    m.insert("a2".into(), pat("p2"));
    m.insert("a1".into(), pat("p3"));
    assert_eq!(m.len(), 2);
    assert_eq!(m.get("a1").map(|p| p.id.as_str()), Some("p3"));
    assert_eq!(m.get("a2").map(|p| p.id.as_str()), Some("p2"));
    assert!(m.get("zz").is_none());
    assert!(!m.contains_key("zz"));
}

// ── errors ──────────────────────────────────────────────────────────────────

#[test]
fn select_error_variants_and_messages() {
    let pool = vec![actor("a", "A"), actor("b", "B")];
    let catalog = vec![DeceptionPattern {
        id: "d".into(),
        name_zh: "x".into(),
        description: String::new(),
        example: String::new(),
        difficulty: Difficulty::Easy,
        teaching_goal: String::new(),
        affinity: 3,
    }];
    let e = assemble_session(&pool, &catalog, 5, 1).unwrap_err();
    assert_eq!(e, SelectError::PoolTooSmall { needed: 5, available: 2 });
    assert_eq!(e.message(), "演員池不足：需要 5，實際只有 2");
    let e = assemble_session(&pool, &catalog, 2, 3).unwrap_err();
    assert_eq!(e, SelectError::TooManyLiars);
    assert_eq!(e.message(), "騙子數量不能超過演員數量");
    let e = assemble_session(&pool, &[], 2, 1).unwrap_err();
    assert_eq!(e, SelectError::EmptyCatalog);
    assert_eq!(e.message(), "騙術清單為空");
}

#[test]
fn session_error_for_unknown_actor() {
    let mut s = GameSession::new(
        vec![actor("a1", "甲")],
        vec![],
        DeceptionMap::new(),
        topic(),
        PacingConfig::default(),
    );
    match s.actor_respond("zz", "hello") {
        Err(e) => {
            assert!(matches!(&e, SessionError::UnknownActor(id) if id == "zz"));
            assert_eq!(e.message(), "找不到演員 zz");
        }
        Ok(_) => panic!("an unknown actor must be refused"),
    }
    assert!(s.transcript.is_empty());
}

#[test]
fn format_error_carries_the_extension() {
    match detect_format("notes.txt") {
        Err(FormatError::Unsupported(Some(e))) => assert_eq!(e, "txt"),
        other => panic!("unexpected {:?}", other),
    }
    match detect_format("archive.tar.gz") {
        Err(FormatError::Unsupported(Some(e))) => assert_eq!(e, "gz"),
        other => panic!("unexpected {:?}", other),
    }
    assert!(matches!(detect_format("README"), Err(FormatError::Unsupported(None))));
    assert!(matches!(detect_format("dir/.yaml"), Err(FormatError::Unsupported(None))));
    assert!(matches!(detect_format("UPPER.YAML"), Err(FormatError::Unsupported(Some(_)))));
}

#[test]
fn actor_rows_report_every_problem_in_order() {
    let rows = vec![
        ActorRow {
            id: String::new(),
            name: String::new(),
            short_bio: String::new(),
            speech_style: String::new(),
            affinity: 0,
            avatar: String::new(),
        },
        ActorRow {
            id: "ok".into(),
            name: "好".into(),
            short_bio: String::new(),
            speech_style: String::new(),
            affinity: 12,
            avatar: String::new(),
        },
    ];
    assert_eq!(
        validate_actor_rows(&rows),
        vec!["演員 '' 缺少 id", "id='' 缺少 name", "演員 '' affinity=0 不在 [1,12]"]
    );
}

#[test]
fn deception_rows_check_difficulty_in_any_case() {
    assert!(validate_deception_rows(&vec![deception_row("EASY", 5)]).is_empty());
    assert!(validate_deception_rows(&vec![deception_row("難", 5)]).is_empty());
    assert!(validate_deception_rows(&vec![deception_row("", 5)]).is_empty());
    assert_eq!(
        validate_deception_rows(&vec![deception_row("Extreme", 13)]),
        vec![
            "騙術 'd1' affinity=13 不在 [1,12]",
            "騙術 'd1' difficulty='Extreme' 不合法（易/中/難 或 easy/medium/hard）",
        ]
    );
}

// ── exact formulas ──────────────────────────────────────────────────────────

#[test]
fn difficulty_words_are_the_lowercase_names() {
    for w in ["easy", "medium", "hard", "易", "中", "難"] {
        assert!(is_difficulty_word(w), "{w}");
    }
    assert!(!is_difficulty_word("Easy"));
    assert!(!is_difficulty_word("extreme"));
}

#[test]
fn ollama_supports_streaming_json_and_embeddings() {
    let c = ollama_capabilities();
    assert!(c.streaming && c.json_mode && c.embeddings);
    assert!(!c.tool_use && !c.vision);
}

#[test]
fn rendered_yaml_is_exact() {
    let row = ActorRow {
        id: "actor-1".into(),
        name: "Alpha".into(),
        short_bio: "bio".into(),
        speech_style: "calm".into(),
        affinity: 6,
        avatar: "🦊".into(),
    };
    assert_eq!(
        render_actor_yaml(&row),
        "id: \"actor-1\"\nname: \"Alpha\"\navatar: \"🦊\"\nshort_bio: \"bio\"\npersonality_traits: []\nspeech_style: \"calm\"\naffinity: 6\n"
    );
    assert_eq!(output_file_name("actor-1"), "actor-1.yaml");
    assert_eq!(
        render_deception_yaml(&deception_row("易", 11)),
        "id: \"d1\"\nname_zh: \"假權威\"\ndescription: \"冒用專家\"\nexample: \"某教授說\"\ndifficulty: easy\nteaching_goal: \"查證身分\"\naffinity: 11\n"
    );
}

#[test]
fn time_of_day_is_formatted_exactly() {
    assert_eq!(format_hms(0), "00:00:00 UTC");
    assert_eq!(format_hms(3661), "01:01:01 UTC");
    assert_eq!(format_hms(86400 + 86399), "23:59:59 UTC");
    let now = timestamp_now();
    assert_eq!(now.chars().count(), 12);
    assert!(now.ends_with(" UTC"));
    assert_eq!(now.as_bytes()[2], b':');
    assert_eq!(now.as_bytes()[5], b':');
}

#[test]
fn truthy_values() {
    for v in ["1", "true", " YES ", "On", "y"] {
        assert!(is_truthy(v), "{v}");
    }
    for v in ["0", "", "no", "yes please", "tru"] {
        assert!(!is_truthy(v), "{v}");
    }
}

#[test]
fn log_entries_are_exact() {
    let a = actor("a1", "甲");
    let frags = vec!["ab".to_string(), "c".to_string()];
    assert_eq!(
        actor_turn_entry("12:00:00 UTC", &a, true, "ab|c", &frags),
        "### `[12:00:00 UTC]` 甲 🤥 (`a1`)\n**Raw LLM** (4 chars):\n```\nab|c\n```\n**Fragments** (2):\n1. ab\n2. c\n\n---\n\n"
    );
    assert_eq!(
        actor_turn_entry("t", &a, false, "", &[]),
        "### `[t]` 甲 (`a1`)\n**Raw LLM** (0 chars):\n```\n\n```\n**Fragments** (0):\n_（無片段）_\n\n---\n\n"
    );
    assert_eq!(student_turn_entry("t", "問"), "### `[t]` 👤 學生\n問\n\n---\n\n");
    let actors = vec![actor("a1", "甲"), actor("a2", "乙")];
    assert_eq!(
        session_header("sid", "t", &topic(), &actors, &["a2".to_string(), "zz".to_string()]),
        "# Session `sid`\n**Started**: t\n**Topic**: 月亮會發光嗎？\n**Correct answer**: 不會，是反射陽光\n**Actors**: 甲、乙\n**Liars**: 乙\n\n---\n\n"
    );
}

#[test]
fn gateway_small_formulas() {
    assert_eq!(effective_model("", "llama3"), "llama3");
    assert_eq!(effective_model("qwen", "llama3"), "qwen");
    assert_eq!(
        token_usage(Some(7), Some(5)),
        Some(TokenUsage { prompt_tokens: 7, completion_tokens: 5, total_tokens: 12 })
    );
    assert_eq!(token_usage(None, Some(5)), None);
    assert_eq!(affinity_distance(3, 10), 7);
    assert_eq!(affinity_distance(10, 3), 7);
    assert_eq!(default_eagerness(), 5);
}

#[test]
fn wire_messages_add_system_prompt_only_when_missing() {
    let msgs = vec![ChatMessage::user("hi")];
    let wire = build_messages(Some("be brief"), &msgs);
    let got: Vec<(&str, &str)> = wire.iter().map(|m| (m.role, m.content.as_str())).collect();
    assert_eq!(got, vec![("system", "be brief"), ("user", "hi")]);
    let msgs = vec![ChatMessage::system("rules"), ChatMessage::assistant("ok")];
    let wire = build_messages(Some("be brief"), &msgs);
    let got: Vec<(&str, &str)> = wire.iter().map(|m| (m.role, m.content.as_str())).collect();
    assert_eq!(got, vec![("system", "rules"), ("assistant", "ok")]);
}

// ── what goes through outside calls ─────────────────────────────────────────

#[test]
fn response_delay_stays_in_range() {
    let p = PacingConfig { min_response_delay_ms: 10, max_response_delay_ms: 20, ..PacingConfig::default() };
    for _ in 0..50 {
        let d = p.random_response_delay();
        assert!((10..=20).contains(&d));
    }
    let fixed = PacingConfig { min_response_delay_ms: 42, max_response_delay_ms: 42, ..PacingConfig::default() };
    assert_eq!(fixed.random_response_delay(), 42);
}

#[test]
fn sessions_get_distinct_ids() {
    let s1 = GameSession::new(vec![], vec![], DeceptionMap::new(), topic(), PacingConfig::default());
    let s2 = GameSession::new(vec![], vec![], DeceptionMap::new(), topic(), PacingConfig::default());
    assert_ne!(s1.session_id, s2.session_id);
}

#[test]
fn moderator_speaks_at_opening() {
    let actors = vec![actor("m", "主持"), actor("a", "甲")];
    let ctx = TurnContext { actors: &actors, transcript: &[] };
    assert!(should_moderator_speak(&ctx, &actors[0]));
}

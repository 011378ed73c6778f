use aiss::actor::Actor;
use aiss::deception::{DeceptionMap, DeceptionPattern};
use aiss::fragments::{split_into_fragments, MAX_FRAGMENTS, is_emoji};
use aiss::gateway::{normalize_base_url, role_from_str, role_to_str, Role};
use aiss::importer::normalize_difficulty;
use aiss::pacing::PacingConfig;
use aiss::prompts::OPENING_PROMPT;
use aiss::selector::assemble_session;
use aiss::session::{ChatTurn, GameSession};
use aiss::shared::{Difficulty, Topic, Verdict};
use aiss::turn_director::{parse_moderator_response, AlgorithmicDirector, ModeratorDirector, TurnContext};

fn actor(id: &str, name: &str, affinity: u8) -> Actor {
    Actor {
        id: id.into(),
        name: name.into(),
        avatar: String::new(),
        short_bio: format!("{name} 的簡介"),
        personality_traits: vec!["好奇".into()],
        speech_style: "口語".into(),
        discussion_lens: String::new(),
        affinity,
        eagerness: 5,
    }
}

fn pattern(id: &str, affinity: u8) -> DeceptionPattern {
    DeceptionPattern {
        id: id.into(),
        name_zh: "斷章取義".into(),
        description: "只引用對自己有利的片段".into(),
        example: String::new(),
        difficulty: Difficulty::Hard,
        teaching_goal: "看完整脈絡".into(),
        affinity,
    }
}

fn session_with_liars(liars: &[&str]) -> GameSession {
    let actors = vec![actor("a1", "甲", 9), actor("a2", "乙", 5), actor("a3", "丙", 3)];
    let mut deceptions = DeceptionMap::new();
    for id in liars {
        deceptions.insert(id.to_string(), pattern("p1", 6));
    }
    GameSession::new(
        actors,
        liars.iter().map(|s| s.to_string()).collect(),
        deceptions,
        Topic {
            id: "q1".into(),
            question: "蝙蝠是瞎子嗎？".into(),
            correct_answer: "不是，牠們看得見".into(),
            difficulty: Difficulty::Easy,
            tags: vec![],
        },
        PacingConfig::default(),
    )
}

fn ids(v: &[&str]) -> Vec<String> {
    v.iter().map(|s| s.to_string()).collect()
}

const LONG_REASON: &str = "他說的研究根本查不到出處，而且日期也對不上";

// ── fragments ───────────────────────────────────────────────────────────────

#[test]
fn fragments_obey_shape_rules() {
    let raw = "（笑）這是真的。|我也聽說過.😱😱😱|超扯！|而且";
    let out = split_into_fragments(raw);
    assert_eq!(out, vec!["我也聽說過😱", "超扯！"]);
    assert!(out.len() <= MAX_FRAGMENTS);
    for f in &out {
        assert!(!f.is_empty());
        assert!(!f.contains('。') && !f.contains('.') && !f.contains('|') && !f.contains('｜'));
        assert!(!f.starts_with('（') && !f.starts_with('('));
        assert!(f.chars().filter(|c| is_emoji(*c)).count() <= 1);
    }
}

#[test]
fn fragments_never_exceed_max() {
    let out = split_into_fragments("一|二|三|四|五|六|七");
    assert_eq!(out, vec!["一", "二", "三", "四", "五"]);
}

#[test]
fn fragments_never_cut_by_length() {
    let long = "牠有「超強的偵測技能點數」『真的』這是一段很長很長而且完全沒有任何標點符號的句子所以不會被切開";
    assert_eq!(split_into_fragments(long), vec![long]);
}

#[test]
fn fragments_last_is_not_a_conjunction() {
    let out = split_into_fragments("我查過了|但是|所以");
    assert_eq!(out, vec!["我查過了"]);
}

#[test]
fn fragments_lone_comma_joins_previous() {
    // a piece made only of punctuation is merged, so a comma can survive
    assert_eq!(split_into_fragments("好|，"), vec!["好，"]);
}

// ── scoring ─────────────────────────────────────────────────────────────────

#[test]
fn score_all_liars_is_green_and_names_them() {
    let s = session_with_liars(&["a1", "a2"]);
    let (v, f) = s.score_multi(&ids(&["a1", "a2"]), LONG_REASON);
    assert_eq!(v, Verdict::Green);
    assert!(f.contains("甲、乙"));
    assert!(f.contains("「斷章取義」（看完整脈絡）"));
}

#[test]
fn score_ignores_order_and_repeats() {
    let s = session_with_liars(&["a1", "a2"]);
    let (v1, _) = s.score_multi(&ids(&["a1", "a2"]), LONG_REASON);
    let (v2, _) = s.score_multi(&ids(&["a2", "a1", "a1"]), LONG_REASON);
    assert_eq!(v1, v2);
    let (v3, _) = s.score_multi(&ids(&["a1", "a1"]), "亂講");
    let (v4, _) = s.score_multi(&ids(&["a1"]), "亂講");
    assert_eq!(v3, v4);
}

#[test]
fn score_partial_is_yellow_and_names_the_missed() {
    let s = session_with_liars(&["a1", "a2"]);
    let (v, f) = s.score_multi(&ids(&["a1"]), LONG_REASON);
    assert_eq!(v, Verdict::Yellow);
    assert!(f.starts_with("🟡 找對了一部分！但還漏掉了：乙"));
}

#[test]
fn score_honest_accused_is_red_even_with_all_liars() {
    let s = session_with_liars(&["a1", "a2"]);
    let (v, f) = s.score_multi(&ids(&["a1", "a2", "a3"]), LONG_REASON);
    assert_eq!(v, Verdict::Red);
    assert!(f.contains("「丙」其實是誠實的喔"));
    assert!(f.contains("甲、乙"));
}

#[test]
fn score_nobody_accused_is_red() {
    let s = session_with_liars(&["a1"]);
    let (v, _) = s.score_multi(&[], LONG_REASON);
    assert_eq!(v, Verdict::Red);
}

#[test]
fn score_exact_feedback_text() {
    let s = session_with_liars(&["a1"]);
    let (_, f) = s.score("a1", LONG_REASON);
    assert_eq!(
        f,
        "🟢 全部答對！你找出了所有騙子（甲），理由也很清楚。\n學習重點：「斷章取義」（看完整脈絡）"
    );
    let (_, f) = s.score("a1", "亂講");
    assert_eq!(
        f,
        "🟡 全部答對！但理由可以更具體。試著說明哪個地方讓你覺得可疑？\n學習重點：「斷章取義」（看完整脈絡）"
    );
}

// ── silence ─────────────────────────────────────────────────────────────────

#[test]
fn silence_grows_with_student_turns_and_resets_on_reply() {
    let mut s = session_with_liars(&["a1"]);
    s.student_says("第一個問題".into());
    s.student_says("第二個問題".into());
    {
        let ctx = TurnContext { actors: &s.actors, transcript: &s.transcript };
        assert_eq!(ctx.silence_count("a1"), 2);
        assert_eq!(ctx.silence_count("a2"), 2);
    }
    s.actor_respond("a1", "我覺得不是|你查過嗎").unwrap();
    {
        let ctx = TurnContext { actors: &s.actors, transcript: &s.transcript };
        assert_eq!(ctx.silence_count("a1"), 0);
        assert_eq!(ctx.silence_count("a2"), 2);
    }
    s.student_says("第三個問題".into());
    let ctx = TurnContext { actors: &s.actors, transcript: &s.transcript };
    assert_eq!(ctx.silence_count("a1"), 1);
    assert_eq!(ctx.silence_count("a2"), 3);
}

#[test]
fn silence_counts_only_student_turns_since_last_reply() {
    let actors = vec![actor("a1", "甲", 5), actor("a2", "乙", 5)];
    let turn = |id: &str| ChatTurn {
        speaker_id: id.into(),
        speaker_name: id.into(),
        content: "...".into(),
        is_liar: false,
    };
    let transcript = vec![turn("student"), turn("a1"), turn("student"), turn("a2"), turn("student")];
    let ctx = TurnContext { actors: &actors, transcript: &transcript };
    assert_eq!(ctx.silence_count("a1"), 2);
    assert_eq!(ctx.silence_count("a2"), 1);
    assert_eq!(ctx.silence_count("nobody"), 3);
}

// ── prompting ───────────────────────────────────────────────────────────────

#[test]
fn messages_open_with_system_then_only_user() {
    let mut s = session_with_liars(&["a1"]);
    let m = s.messages_for_actor("a2").unwrap();
    assert_eq!(m.len(), 2);
    assert_eq!(m[0].role, Role::System);
    let prompt = s.compose_system_prompt(&s.actors[1].clone());
    assert!(m[0].content.starts_with(prompt.as_str()));
    assert_eq!(m[1].role, Role::User);
    assert_eq!(m[1].content, OPENING_PROMPT);

    s.student_says("問題一".into());
    s.student_says("問題二".into());
    s.actor_respond("a1", "我不信").unwrap();
    s.student_says("問題三".into());
    let m = s.messages_for_actor("a2").unwrap();
    assert_eq!(m.len(), 3);
    assert_eq!(m[0].role, Role::System);
    assert!(m[0].content.contains("- 甲：我不信"));
    assert_eq!(m[1].role, Role::User);
    assert_eq!(m[1].content, "問題一\n問題二");
    assert_eq!(m[2].role, Role::User);
    assert_eq!(m[2].content, "問題三");
}

#[test]
fn honest_prompt_holds_answer_liar_prompt_holds_tactic() {
    let s = session_with_liars(&["a1"]);
    let liar = s.compose_system_prompt(&s.actors[0].clone());
    let honest = s.compose_system_prompt(&s.actors[1].clone());
    assert!(honest.contains("不是，牠們看得見"));
    assert!(liar.contains("斷章取義"));
    assert!(liar.contains("只引用對自己有利的片段"));
}

// ── moderator replies ───────────────────────────────────────────────────────

#[test]
fn moderator_reply_names_each_actor_once() {
    let actors = vec![actor("a1", "甲", 5), actor("a2", "乙", 5), actor("a3", "丙", 5)];
    let picks = parse_moderator_response("[乙], 「丙」、乙\n丁, a3", &actors, 3);
    let got: Vec<&str> = picks.iter().map(|a| a.id.as_str()).collect();
    assert_eq!(got, vec!["a2", "a3"]);
    let picks = parse_moderator_response("乙, 丙", &actors, 1);
    assert_eq!(picks.len(), 1);
    assert_eq!(picks[0].id, "a2");
}

#[test]
fn moderator_reply_with_zero_max_still_takes_one() {
    let actors = vec![actor("a1", "甲", 5), actor("a2", "乙", 5)];
    let picks = parse_moderator_response("乙, 甲", &actors, 0);
    assert_eq!(picks.len(), 1);
    assert_eq!(picks[0].id, "a2");
}

// ── line-ups ────────────────────────────────────────────────────────────────

#[test]
fn lineup_has_distinct_actors_and_one_pattern_per_liar() {
    let pool: Vec<Actor> = (0..6).map(|i| actor(&format!("p{i}"), &format!("P{i}"), 2 * i + 1)).collect();
    let catalog = vec![pattern("d1", 2), pattern("d2", 8)];
    for _ in 0..20 {
        let (sel, liars, dec) = assemble_session(&pool, &catalog, 4, 2).unwrap();
        let mut sel_ids: Vec<&str> = sel.iter().map(|a| a.id.as_str()).collect();
        sel_ids.sort();
        sel_ids.dedup();
        assert_eq!(sel_ids.len(), 4);
        assert_eq!(liars.len(), 2);
        assert_ne!(liars[0], liars[1]);
        for l in &liars {
            assert!(sel.iter().any(|a| &a.id == l));
            assert!(dec.contains_key(l));
        }
        assert_eq!(dec.len(), 2);
    }
}

// ── names and addresses ─────────────────────────────────────────────────────

#[test]
fn role_names_round_trip() {
    for r in [Role::System, Role::User, Role::Assistant, Role::Tool] {
        assert_eq!(role_from_str(role_to_str(&r)), r);
    }
    assert_eq!(role_to_str(&Role::Assistant), "assistant");
    assert_eq!(role_from_str("SYSTEM"), Role::User);
    assert_eq!(role_from_str("whatever"), Role::User);
}

#[test]
fn normalized_url_has_no_trailing_slash() {
    let once = normalize_base_url("http://localhost:11434///");
    assert_eq!(once, "http://localhost:11434");
    assert_eq!(normalize_base_url(&once), once);
    assert_eq!(normalize_base_url("/"), "");
    assert_eq!(normalize_base_url(""), "");
}

#[test]
fn normalized_difficulty_is_canonical() {
    assert_eq!(normalize_difficulty("易"), "easy");
    assert_eq!(normalize_difficulty("Easy"), "easy");
    assert_eq!(normalize_difficulty("難"), "hard");
    assert_eq!(normalize_difficulty("Hard"), "hard");
    assert_eq!(normalize_difficulty("HARD"), "medium");
    assert_eq!(normalize_difficulty("中"), "medium");
    for s in ["易", "難", "medium", "x"] {
        let n = normalize_difficulty(s);
        assert_eq!(normalize_difficulty(n), n);
    }
}

#[test]
fn draw_takes_every_willing_actor_and_no_unwilling_one() {
    let mut quiet = actor("q", "靜", 5);
    quiet.eagerness = 0;
    let actors = vec![actor("a", "甲", 5), quiet, actor("b", "乙", 5)];
    let ctx = TurnContext { actors: &actors, transcript: &[] };
    for _ in 0..20 {
        let picks = AlgorithmicDirector::new(3, 3).pick_next_speakers(&ctx);
        let mut ids: Vec<&str> = picks.iter().map(|a| a.id.as_str()).collect();
        ids.sort();
        assert_eq!(ids, vec!["a", "b"]);
    }
}

#[test]
fn moderator_round_is_never_empty_and_never_repeats() {
    let actors = vec![actor("a1", "甲", 5), actor("a2", "乙", 5), actor("a3", "丙", 5)];
    let ctx = TurnContext { actors: &actors, transcript: &[] };
    for id in ["a1", "zz"] {
        let dir = ModeratorDirector::new(id.into(), "m".into(), 1, 3);
        for reply in [None, Some("丁"), Some("乙, 乙, 甲")] {
            let picks = dir.pick_next_speakers(&ctx, reply);
            assert!(!picks.is_empty() && picks.len() <= 3);
            let mut ids: Vec<&str> = picks.iter().map(|a| a.id.as_str()).collect();
            let n = ids.len();
            ids.sort();
            ids.dedup();
            assert_eq!(ids.len(), n);
        }
    }
}

#[test]
fn fragments_keep_the_reply_order() {
    let raw = "（笑）其實啊，這個|！我查過了😀😀。而且";
    let out = split_into_fragments(raw).concat();
    let mut it = raw.chars();
    for c in out.chars() {
        assert!(it.any(|d| d == c), "{c} out of order");
    }
}

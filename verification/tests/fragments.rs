use aiss::fragments::{split_into_fragments, MAX_FRAGMENTS};

#[test]
fn fragments_split_by_pipe() {
    let out = split_into_fragments("我覺得不對|沒有證據|你查過嗎");
    assert_eq!(out, vec!["我覺得不對", "沒有證據", "你查過嗎"]);
}

#[test]
fn fragments_split_by_full_width_pipe() {
    let out = split_into_fragments("其實這個傳說｜跟科學證據不符喔！｜我上次看過資料");
    assert_eq!(out.len(), 3);
    assert_eq!(out[0], "其實這個傳說");
    assert_eq!(out[1], "跟科學證據不符喔！");
    assert_eq!(out[2], "我上次看過資料");
}

#[test]
fn fragments_split_by_mixed_pipes() {
    let out = split_into_fragments("第一段｜第二段|第三段");
    assert_eq!(out, vec!["第一段", "第二段", "第三段"]);
}

#[test]
fn fragments_remove_periods() {
    let out = split_into_fragments("這是真的。|我也聽說過.");
    assert_eq!(out, vec!["這是真的", "我也聽說過"]);
}

#[test]
fn fragments_keep_question_and_exclamation() {
    let out = split_into_fragments("真的嗎？|我不信！");
    assert_eq!(out, vec!["真的嗎？", "我不信！"]);
}

#[test]
fn fragments_cap_at_max() {
    let many = (1..=MAX_FRAGMENTS + 3)
        .map(|i| format!("片段{}說話", i))
        .collect::<Vec<_>>()
        .join("|");
    let out = split_into_fragments(&many);
    assert_eq!(out.len(), MAX_FRAGMENTS);
}

#[test]
fn fragments_split_at_internal_punctuation_even_when_under_limit() {
    let out = split_into_fragments("我覺得，沒道理");
    assert_eq!(out.len(), 2);
    assert_eq!(out[0], "我覺得");
    assert_eq!(out[1], "沒道理");
}

#[test]
fn fragments_lone_exclamation_merges_to_previous() {
    let out = split_into_fragments("超扯|！我不信");
    assert_eq!(out[0], "超扯！");
    assert_eq!(out[1], "我不信");
}

#[test]
fn fragments_pure_punctuation_fragment_drops_into_previous() {
    let out = split_into_fragments("超扯|！|我不信");
    assert_eq!(out.len(), 2);
    assert_eq!(out[0], "超扯！");
}

#[test]
fn fragments_handle_no_pipe_under_limit() {
    let out = split_into_fragments("我聽過這個");
    assert_eq!(out, vec!["我聽過這個"]);
}

#[test]
fn fragments_split_long_segment_by_punctuation() {
    let out = split_into_fragments("我覺得這個是對的，因為我看過很多人說");
    assert!(out.len() >= 2, "應該被切成多段：{:?}", out);
    for frag in &out {
        assert!(!frag.contains('，'), "片段不應含內部 ，：{}", frag);
    }
}

#[test]
fn fragments_no_punctuation_stays_one_piece() {
    let s = "這個我覺得可能是真的因為我看過類似的說法很多次所以應該沒錯";
    let out = split_into_fragments(s);
    assert_eq!(out.len(), 1, "{:?}", out);
    assert_eq!(out[0], s);
}

#[test]
fn fragments_preserve_chinese_quotes() {
    let out = split_into_fragments("牠有「超強的偵測技能點數」喔");
    assert_eq!(out.len(), 1);
    assert!(out[0].contains("「超強的偵測技能點數」"));
}

#[test]
fn fragments_strip_trailing_a_filler() {
    let out = split_into_fragments("根本不是瞎子啊");
    assert_eq!(out, vec!["根本不是瞎子"]);
}

#[test]
fn fragments_strip_a_before_punct() {
    let out = split_into_fragments("怎麼飛這麼穩啊？");
    assert_eq!(out, vec!["怎麼飛這麼穩？"]);
}

#[test]
fn fragments_keep_la_filler() {
    let out = split_into_fragments("根本不是瞎子啦");
    assert_eq!(out, vec!["根本不是瞎子啦"]);
}

#[test]
fn fragments_keep_a_at_start() {
    let out = split_into_fragments("啊我懂了");
    assert_eq!(out, vec!["啊我懂了"]);
}

#[test]
fn fragments_split_at_space_between_chinese() {
    let out = split_into_fragments("科學資訊的真假 光聽科學家說 不代表一定對");
    assert_eq!(out.len(), 3);
    assert_eq!(out[0], "科學資訊的真假");
    assert_eq!(out[1], "光聽科學家說");
    assert_eq!(out[2], "不代表一定對");
}

#[test]
fn fragments_keep_chinese_english_spacing() {
    let out = split_into_fragments("我在 Discord 看到的");
    assert_eq!(out, vec!["我在 Discord 看到的"]);
}

#[test]
fn fragments_split_at_full_width_space() {
    let out = split_into_fragments("第一段內容\u{3000}第二段內容");
    assert_eq!(out.len(), 2);
}

#[test]
fn fragments_dont_split_at_space_around_english_only() {
    let out = split_into_fragments("Boss 戰那麼單純嗎");
    assert_eq!(out, vec!["Boss 戰那麼單純嗎"]);
}

#[test]
fn fragments_drop_stage_direction_parens() {
    let out = split_into_fragments("（收到主題）|呃|關於冷凍蔬菜的營養");
    assert_eq!(out, vec!["呃", "關於冷凍蔬菜的營養"]);
}

#[test]
fn fragments_drop_orphan_closing_paren() {
    let out = split_into_fragments("（收到主題|）呃|關於冷凍蔬菜");
    assert_eq!(out, vec!["關於冷凍蔬菜"]);
}

#[test]
fn fragments_keep_inline_parens() {
    let out = split_into_fragments("回音定位（Echolocation）");
    assert_eq!(out, vec!["回音定位（Echolocation）"]);
}

#[test]
fn fragments_drop_trailing_lone_conjunction() {
    let out = split_into_fragments("我覺得不對！|而且");
    assert_eq!(out, vec!["我覺得不對！"]);
}

#[test]
fn fragments_drop_multi_char_conjunction() {
    let out = split_into_fragments("這很重要！|要看過程！|舉例來說");
    assert_eq!(out, vec!["這很重要！", "要看過程！"]);
}

#[test]
fn fragments_keep_short_complete_lines() {
    let out = split_into_fragments("真的嗎？|沒錯|你查過嗎");
    assert_eq!(out, vec!["真的嗎？", "沒錯", "你查過嗎"]);
}

#[test]
fn fragments_cap_emojis_per_fragment() {
    let out = split_into_fragments("天哪😱😱😱！|這太誇張了🤯🦈！");
    assert_eq!(out, vec!["天哪😱！", "這太誇張了🤯！"]);
}

#[test]
fn fragments_keep_single_emoji() {
    let out = split_into_fragments("超扯😆！|真的假的");
    assert_eq!(out, vec!["超扯😆！", "真的假的"]);
}

#[test]
fn fragments_handle_no_emoji() {
    let out = split_into_fragments("一般訊息|沒有 emoji");
    assert_eq!(out, vec!["一般訊息", "沒有 emoji"]);
}

#[test]
fn fragments_short_pieces_remain_separate() {
    let out = split_into_fragments("靠|這說法不對");
    assert_eq!(out.len(), 2, "{:?}", out);
    assert_eq!(out[0], "靠");
    assert_eq!(out[1], "這說法不對");
}

#[test]
fn fragments_empty_input_returns_empty() {
    assert!(split_into_fragments("").is_empty());
    assert!(split_into_fragments("   ").is_empty());
    assert!(split_into_fragments("|||").is_empty());
}

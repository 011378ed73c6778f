use aiss::actor::Actor;
use aiss::deception::DeceptionPattern;
use aiss::selector::{assemble_session, pick_deception};
use aiss::shared::Difficulty;

fn make_actor(id: &str, affinity: u8) -> Actor {
    Actor {
        id: id.to_string(),
        name: id.to_string(),
        avatar: String::new(),
        short_bio: String::new(),
        personality_traits: vec![],
        speech_style: String::new(),
        discussion_lens: String::new(),
        affinity,
        eagerness: 5,
    }
}

fn make_deception(id: &str, affinity: u8) -> DeceptionPattern {
    DeceptionPattern {
        id: id.to_string(),
        name_zh: id.to_string(),
        description: String::new(),
        example: String::new(),
        difficulty: Difficulty::Easy,
        teaching_goal: String::new(),
        affinity,
    }
}

#[test]
fn test_assemble_basic() {
    let actors: Vec<Actor> = (0..5).map(|i| make_actor(&format!("a{i}"), (i as u8 * 2) + 1)).collect();
    let catalog: Vec<DeceptionPattern> =
        (0..3).map(|i| make_deception(&format!("d{i}"), (i as u8 * 3) + 3)).collect();

    let (selected, liars, deceptions) = assemble_session(&actors, &catalog, 3, 1).unwrap();
    assert_eq!(selected.len(), 3);
    assert_eq!(liars.len(), 1);
    assert_eq!(deceptions.len(), 1);
    assert!(liars.iter().all(|id| deceptions.contains_key(id)));
}

#[test]
fn assemble_fails_when_pool_too_small() {
    let actors = vec![make_actor("a1", 5)];
    let catalog = vec![make_deception("d1", 5)];
    let result = assemble_session(&actors, &catalog, 3, 1);
    assert!(result.is_err());
}

#[test]
fn assemble_fails_when_liars_exceed_actors() {
    let actors: Vec<Actor> = (0..3).map(|i| make_actor(&format!("a{i}"), 5)).collect();
    let catalog = vec![make_deception("d1", 5)];
    let result = assemble_session(&actors, &catalog, 3, 5);
    assert!(result.is_err());
}

#[test]
fn assemble_fails_when_catalog_empty() {
    let actors: Vec<Actor> = (0..3).map(|i| make_actor(&format!("a{i}"), 5)).collect();
    let catalog: Vec<DeceptionPattern> = vec![];
    let result = assemble_session(&actors, &catalog, 3, 1);
    assert!(result.is_err());
}

#[test]
fn assemble_zero_liars_works() {
    let actors: Vec<Actor> = (0..3).map(|i| make_actor(&format!("a{i}"), 5)).collect();
    let catalog = vec![make_deception("d1", 5)];
    let (selected, liars, deceptions) = assemble_session(&actors, &catalog, 3, 0).unwrap();
    assert_eq!(selected.len(), 3);
    assert_eq!(liars.len(), 0);
    assert_eq!(deceptions.len(), 0);
}

#[test]
fn assemble_all_liars_works() {
    let actors: Vec<Actor> = (0..3).map(|i| make_actor(&format!("a{i}"), 5)).collect();
    let catalog = vec![make_deception("d1", 5), make_deception("d2", 6)];
    let (selected, liars, deceptions) = assemble_session(&actors, &catalog, 3, 3).unwrap();
    assert_eq!(selected.len(), 3);
    assert_eq!(liars.len(), 3);
    assert_eq!(deceptions.len(), 3);
    for liar_id in &liars {
        assert!(deceptions.contains_key(liar_id));
    }
}

#[test]
fn affinity_distance_zero_gives_max_weight() {
    let actor = make_actor("a", 6);
    let catalog = vec![
        make_deception("d_dist_0", 6),
        make_deception("d_dist_3", 9),
        make_deception("d_dist_5", 11),
    ];

    let mut counts = std::collections::HashMap::new();
    for _ in 0..1000 {
        let picked = pick_deception(&actor, &catalog);
        *counts.entry(picked.id.clone()).or_insert(0u32) += 1;
    }
    let zero = *counts.get("d_dist_0").unwrap_or(&0);
    let three = *counts.get("d_dist_3").unwrap_or(&0);
    let five = *counts.get("d_dist_5").unwrap_or(&0);
    assert!(zero > three, "distance=0 ({}) should beat distance=3 ({})", zero, three);
    assert!(three > five, "distance=3 ({}) should beat distance=5 ({})", three, five);
}

#[test]
fn test_affinity_weighting_high_affinity_match() {
    let actor = make_actor("a_high", 9);
    let catalog = vec![make_deception("d_match", 9), make_deception("d_far", 1)];

    let mut count_match = 0;
    for _ in 0..100 {
        let picked = pick_deception(&actor, &catalog);
        if picked.id == "d_match" {
            count_match += 1;
        }
    }
    assert!(count_match > 50, "affinity 加權未正常工作：match count = {}", count_match);
}

#[test]
fn liar_is_not_always_first_actor() {
    let actors: Vec<Actor> = (0..5).map(|i| make_actor(&format!("a{i}"), (i as u8 * 2) + 1)).collect();
    let catalog: Vec<DeceptionPattern> = vec![make_deception("d1", 5), make_deception("d2", 8)];

    let mut liar_is_first_count = 0;
    for _ in 0..100 {
        let (selected, liars, _) = assemble_session(&actors, &catalog, 3, 1).unwrap();
        if liars[0] == selected[0].id {
            liar_is_first_count += 1;
        }
    }
    assert!(
        liar_is_first_count < 70,
        "騙子排在第一位的次數 = {}，應該隨機分散而非集中在第一位",
        liar_is_first_count
    );
}

#[test]
fn liar_position_varies_across_runs() {
    let actors: Vec<Actor> = (0..5).map(|i| make_actor(&format!("a{i}"), (i as u8 * 2) + 1)).collect();
    let catalog = vec![make_deception("d1", 5)];

    let mut positions = std::collections::HashSet::new();
    for _ in 0..50 {
        let (selected, liars, _) = assemble_session(&actors, &catalog, 3, 1).unwrap();
        let pos = selected.iter().position(|a| a.id == liars[0]).unwrap();
        positions.insert(pos);
    }
    assert!(positions.len() >= 2, "騙子位置只出現在 {:?}，缺乏隨機性", positions);
}

//! Assembling the line-up of a game: which actors play, which of them lie,
//! and which deception pattern each liar uses.

use vstd::prelude::*;
use crate::actor::{Actor, ActorView, actor_views, lemma_actor_views_push};
use crate::deception::{DeceptionPattern, DeceptionPatternView, DeceptionMap, pattern_views};
use crate::chance::{draw_index, draw_ratio, shuffled_range, draw_weighted, weights_sum, lemma_weights_sum_bound};
use crate::text::{str_eq, string_views, lemma_string_views_push, push_decimal, decimal};

verus! {

/// Why a line-up cannot be assembled.
#[derive(Debug, Clone, Copy, PartialEq, Eq, Structural)]
pub enum SelectError {
    /// The pool holds fewer actors than the game needs.
    PoolTooSmall { needed: usize, available: usize },
    /// More liars were asked for than actors.
    TooManyLiars,
    /// The deception catalog is empty.
    EmptyCatalog,
}

pub open spec fn select_error_message(e: SelectError) -> Seq<char> {
    match e {
        SelectError::PoolTooSmall { needed, available } => "演員池不足：需要 "@ + decimal(
            needed as nat,
        ) + "，實際只有 "@ + decimal(available as nat),
        SelectError::TooManyLiars => "騙子數量不能超過演員數量"@,
        SelectError::EmptyCatalog => "騙術清單為空"@,
    }
}

impl SelectError {
    /// The message shown for this error.
    pub fn message(&self) -> (r: String)
        ensures
            r@ == select_error_message(*self),
    {
        match self {
            SelectError::PoolTooSmall { needed, available } => {
                let mut m = "演員池不足：需要 ".to_owned();
                push_decimal(&mut m, *needed as u64);
                m.push_str("，實際只有 ");
                push_decimal(&mut m, *available as u64);
                m
            },
            SelectError::TooManyLiars => "騙子數量不能超過演員數量".to_owned(),
            SelectError::EmptyCatalog => "騙術清單為空".to_owned(),
        }
    }
}

/// Chance, in percent, that a liar's pattern is drawn uniformly instead of by
/// affinity.
pub const UNIFORM_PICK_PERCENT: u32 = 15;

/// The numerator of the affinity weights: the least common multiple of 1..=46,
/// so that `WEIGHT_SCALE / (1 + distance)` is exact for every distance below 46
/// (every distance between valid affinities, 1..=12) and below 2^64.
pub const WEIGHT_SCALE: u128 = 9419588158802421600;

/// The distance between two affinities.
pub open spec fn affinity_distance_spec(a: u8, b: u8) -> int {
    if a >= b {
        a - b
    } else {
        b - a
    }
}

/// The distance between two affinities.
pub fn affinity_distance(a: u8, b: u8) -> (r: u8)
    ensures
        r == affinity_distance_spec(a, b),
{
    if a >= b {
        a - b
    } else {
        b - a
    }
}

/// The draw weight of a pattern for an actor: `1 / (1 + distance)` of their
/// affinities, scaled by `WEIGHT_SCALE` (rounded down, which is exact for every
/// distance below 46).
pub open spec fn pattern_weight(actor_affinity: u8, pattern_affinity: u8) -> int {
    WEIGHT_SCALE as int / (1 + affinity_distance_spec(actor_affinity, pattern_affinity))
}

/// The draw weights of the catalog's patterns for an actor: pattern `i` weighs
/// `pattern_weight(actor.affinity, catalog[i].affinity)`, every weight is
/// positive and their total fits a `u128`.
pub fn pattern_weights(actor: &Actor, catalog: &[DeceptionPattern]) -> (r: Vec<u128>)
    ensures
        r@.len() == catalog@.len(),
        forall|i: int|
            0 <= i < catalog@.len() ==> r@[i] == pattern_weight(actor.affinity, #[trigger] catalog@[i].affinity),
        forall|i: int| 0 <= i < r@.len() ==> #[trigger] r@[i] > 0,
        weights_sum(r@) <= u128::MAX,
{
    let mut r: Vec<u128> = Vec::new();
    let mut i: usize = 0;
    while i < catalog.len()
        invariant
            i <= catalog@.len(),
            r@.len() == i,
            forall|j: int|
                0 <= j < i ==> r@[j] == pattern_weight(actor.affinity, #[trigger] catalog@[j].affinity),
            forall|j: int| 0 <= j < i ==> 0 < #[trigger] r@[j] <= WEIGHT_SCALE,
        decreases catalog@.len() - i,
    {
        let d = affinity_distance(actor.affinity, catalog[i].affinity) as u128;
        let den: u128 = 1 + d;
        let w = WEIGHT_SCALE / den;
        assert(w > 0 && w <= WEIGHT_SCALE) by (nonlinear_arith)
            requires
                w == WEIGHT_SCALE as int / den as int,
                1 <= den <= 256,
                WEIGHT_SCALE == 9419588158802421600u128,
        ;
        r.push(w);
        i = i + 1;
    }
    proof {
        lemma_weights_sum_bound(r@, WEIGHT_SCALE as int);
        assert(r@.len() * (WEIGHT_SCALE as int) <= u128::MAX) by (nonlinear_arith)
            requires
                r@.len() <= usize::MAX,
                usize::MAX <= 0xffff_ffff_ffff_ffff,
                WEIGHT_SCALE < 0x1_0000_0000_0000_0000,
        ;
    }
    r
}

/// The pattern a draw gives: the drawn position where there is one, else the
/// first pattern of the catalog.
pub fn drawn_pattern(catalog: &[DeceptionPattern], drawn: Option<usize>) -> (r: DeceptionPattern)
    requires
        catalog@.len() > 0,
        drawn matches Some(i) ==> i < catalog@.len(),
    ensures
        r@ == catalog@[match drawn {
            Some(i) => i as int,
            None => 0,
        }]@,
{
    match drawn {
        Some(i) => catalog[i].clone(),
        None => catalog[0].clone(),
    }
}

/// Picks the deception pattern of a liar. With chance 15% the pick is uniform
/// over the catalog; otherwise pattern `i` is drawn with chance proportional to
/// its `pattern_weight`, that is to `1 / (1 + |actor.affinity - catalog[i].affinity|)`
/// (the weights of `pattern_weights`, all positive, so the weighted draw always
/// gives a position).
pub fn pick_deception(actor: &Actor, catalog: &[DeceptionPattern]) -> (r: DeceptionPattern)
    requires
        catalog@.len() > 0,
    ensures
        exists|k: int| 0 <= k < catalog@.len() && r@ == catalog@[k]@,
{
    let n = catalog.len();
    if draw_ratio(UNIFORM_PICK_PERCENT, 100) {
        let i = draw_index(n);
        return drawn_pattern(catalog, Some(i));
    }
    let weights = pattern_weights(actor, catalog);
    let drawn = draw_weighted(&weights);
    proof {
        assert(weights@[0] > 0);
        assert(drawn is Some);
    }
    drawn_pattern(catalog, drawn)
}

/// `sel` are the pool's actors at the distinct positions `p`.
pub open spec fn picks_at(pool: Seq<ActorView>, sel: Seq<ActorView>, p: Seq<usize>) -> bool {
    &&& p.len() == sel.len()
    &&& p.no_duplicates()
    &&& forall|k: int| 0 <= k < p.len() ==> p[k] < pool.len() && #[trigger] sel[k] == pool[p[k] as int]
}

/// `sel` are `count` actors of the pool at distinct positions.
pub open spec fn is_selection(pool: Seq<ActorView>, count: nat, sel: Seq<ActorView>) -> bool {
    &&& sel.len() == count
    &&& exists|p: Seq<usize>| picks_at(pool, sel, p)
}

/// `liars` are the ids of the line-up's actors at the distinct positions `q`.
pub open spec fn liars_at(sel: Seq<ActorView>, liars: Seq<Seq<char>>, q: Seq<usize>) -> bool {
    &&& q.len() == liars.len()
    &&& q.no_duplicates()
    &&& forall|j: int| 0 <= j < q.len() ==> q[j] < sel.len() && #[trigger] liars[j] == sel[q[j] as int].id
}

/// `liars` are the ids of `count` actors of the line-up at distinct positions.
pub open spec fn is_liar_choice(sel: Seq<ActorView>, count: nat, liars: Seq<Seq<char>>) -> bool {
    &&& liars.len() == count
    &&& exists|q: Seq<usize>| liars_at(sel, liars, q)
}

/// Every liar, and no one else, has a pattern of the catalog.
pub open spec fn is_deception_choice(
    liars: Seq<Seq<char>>,
    catalog: Seq<DeceptionPatternView>,
    dec: Map<Seq<char>, DeceptionPatternView>,
) -> bool {
    &&& dec.dom() == liars.to_set()
    &&& forall|k: Seq<char>|
        #[trigger] dec.contains_key(k) ==> exists|c: int| 0 <= c < catalog.len() && dec[k] == catalog[c]
}

/// The line-up a shuffle gives: the pool's actors at the first `count`
/// positions of `perm`, in that order.
pub open spec fn lineup_by(pool: Seq<ActorView>, perm: Seq<usize>, count: nat) -> Seq<ActorView> {
    Seq::new(count, |i: int| pool[perm[i] as int])
}

/// The liars a shuffle gives: the ids of the line-up's actors at the first
/// `count` positions of `order`, in that order.
pub open spec fn liars_by(sel: Seq<ActorView>, order: Seq<usize>, count: nat) -> Seq<Seq<char>> {
    Seq::new(count, |j: int| sel[order[j] as int].id)
}

/// The patterns of the liars: liar `t` gets pattern `t` (a later entry for the
/// same id replaces an earlier one).
pub open spec fn deception_map(liars: Seq<Seq<char>>, pats: Seq<DeceptionPatternView>) -> Map<
    Seq<char>,
    DeceptionPatternView,
>
    decreases liars.len(),
{
    if liars.len() == 0 {
        Map::empty()
    } else {
        deception_map(liars.drop_last(), pats.drop_last()).insert(liars.last(), pats[liars.len() - 1])
    }
}

/// The liars and no one else have a pattern, and each has one of those given.
pub proof fn lemma_deception_map(liars: Seq<Seq<char>>, pats: Seq<DeceptionPatternView>)
    requires
        liars.len() == pats.len(),
    ensures
        deception_map(liars, pats).dom() == liars.to_set(),
        forall|k: Seq<char>|
            #[trigger] deception_map(liars, pats).contains_key(k) ==> exists|j: int|
                0 <= j < pats.len() && deception_map(liars, pats)[k] == pats[j],
    decreases liars.len(),
{
    if liars.len() == 0 {
        assert(liars.to_set() =~= Set::<Seq<char>>::empty());
    } else {
        let l0 = liars.drop_last();
        let p0 = pats.drop_last();
        lemma_deception_map(l0, p0);
        l0.lemma_push_to_set_commute(liars.last());
        assert(l0.push(liars.last()) =~= liars);
        let m = deception_map(liars, pats);
        assert(m.dom() =~= liars.to_set());
        assert forall|k: Seq<char>| #[trigger] m.contains_key(k) implies exists|j: int|
            0 <= j < pats.len() && m[k] == pats[j] by {
            if k == liars.last() {
                assert(m[k] == pats[liars.len() - 1]);
            } else {
                let j = choose|j: int| 0 <= j < p0.len() && deception_map(l0, p0)[k] == p0[j];
                assert(m[k] == pats[j]);
            }
        }
    }
}

/// The actors of the line-up that a shuffle `perm` of the pool's positions
/// gives (see `lineup_by`).
pub fn select_at(actors: &[Actor], perm: &[usize], count: usize) -> (r: Vec<Actor>)
    requires
        count <= perm@.len(),
        forall|i: int| 0 <= i < count ==> #[trigger] perm@[i] < actors@.len(),
    ensures
        actor_views(r@) == lineup_by(actor_views(actors@), perm@, count as nat),
{
    let ghost pool = actor_views(actors@);
    let mut selected: Vec<Actor> = Vec::new();
    let mut k: usize = 0;
    while k < count
        invariant
            k <= count <= perm@.len(),
            pool == actor_views(actors@),
            forall|i: int| 0 <= i < count ==> #[trigger] perm@[i] < actors@.len(),
            actor_views(selected@) == lineup_by(pool, perm@, k as nat),
        decreases count - k,
    {
        let a = actors[perm[k]].clone();
        proof {
            lemma_actor_views_push(selected@, a);
            assert(lineup_by(pool, perm@, (k + 1) as nat) =~= lineup_by(pool, perm@, k as nat).push(
                pool[perm@[k as int] as int],
            ));
        }
        selected.push(a);
        k = k + 1;
    }
    selected
}

/// The ids of the liars that a shuffle `order` of the line-up's positions gives
/// (see `liars_by`).
pub fn liar_ids_at(selected: &[Actor], order: &[usize], count: usize) -> (r: Vec<String>)
    requires
        count <= order@.len(),
        forall|j: int| 0 <= j < count ==> #[trigger] order@[j] < selected@.len(),
    ensures
        string_views(r@) == liars_by(actor_views(selected@), order@, count as nat),
{
    let ghost sel = actor_views(selected@);
    let mut liar_ids: Vec<String> = Vec::new();
    let mut j: usize = 0;
    while j < count
        invariant
            j <= count <= order@.len(),
            sel == actor_views(selected@),
            forall|i: int| 0 <= i < count ==> #[trigger] order@[i] < selected@.len(),
            string_views(liar_ids@) == liars_by(sel, order@, j as nat),
        decreases count - j,
    {
        let id = selected[order[j]].id.clone();
        proof {
            lemma_string_views_push(liar_ids@, id);
            assert(sel[order@[j as int] as int] == selected@[order@[j as int] as int]@);
            assert(liars_by(sel, order@, (j + 1) as nat) =~= liars_by(sel, order@, j as nat).push(
                id@,
            ));
        }
        liar_ids.push(id);
        j = j + 1;
    }
    liar_ids
}

/// The map from each liar to the pattern drawn for it (see `deception_map`).
pub fn deceptions_for(liar_ids: &[String], patterns: &[DeceptionPattern]) -> (r: DeceptionMap)
    requires
        liar_ids@.len() == patterns@.len(),
    ensures
        r@ == deception_map(string_views(liar_ids@), pattern_views(patterns@)),
{
    let ghost liars = string_views(liar_ids@);
    let ghost pats = pattern_views(patterns@);
    let mut deceptions = DeceptionMap::new();
    let mut t: usize = 0;
    proof {
        assert(liars.take(0) =~= Seq::<Seq<char>>::empty());
    }
    while t < liar_ids.len()
        invariant
            t <= liar_ids@.len() == patterns@.len(),
            liars == string_views(liar_ids@),
            pats == pattern_views(patterns@),
            deceptions@ == deception_map(liars.take(t as int), pats.take(t as int)),
        decreases liar_ids@.len() - t,
    {
        proof {
            assert(liars.take(t + 1).drop_last() =~= liars.take(t as int));
            assert(pats.take(t + 1).drop_last() =~= pats.take(t as int));
            assert(liars.take(t + 1).last() == liar_ids@[t as int]@);
            assert(pats.take(t + 1)[t as int] == patterns@[t as int]@);
        }
        deceptions.insert(liar_ids[t].clone(), patterns[t].clone());
        t = t + 1;
    }
    proof {
        assert(liars.take(liar_ids@.len() as int) =~= liars);
        assert(pats.take(patterns@.len() as int) =~= pats);
    }
    deceptions
}

/// Assembles a line-up: `actor_count` actors drawn at random from the pool, of
/// whom `liar_count` drawn at random lie, each with a pattern from
/// `pick_deception`. Refused, in this order, where the pool is too small, where
/// there are more liars than actors, and where the catalog is empty.
pub fn assemble_session(
    actors: &[Actor],
    catalog: &[DeceptionPattern],
    actor_count: usize,
    liar_count: usize,
) -> (r: Result<(Vec<Actor>, Vec<String>, DeceptionMap), SelectError>)
    ensures
        actors@.len() < actor_count ==> r == Err::<(Vec<Actor>, Vec<String>, DeceptionMap), _>(
            SelectError::PoolTooSmall { needed: actor_count, available: actors@.len() as usize },
        ),
        actors@.len() >= actor_count && liar_count > actor_count ==> r == Err::<
            (Vec<Actor>, Vec<String>, DeceptionMap),
            _,
        >(SelectError::TooManyLiars),
        actors@.len() >= actor_count && liar_count <= actor_count && catalog@.len() == 0 ==> r
            == Err::<(Vec<Actor>, Vec<String>, DeceptionMap), _>(SelectError::EmptyCatalog),
        actors@.len() >= actor_count && liar_count <= actor_count && catalog@.len() > 0 ==> (
        r matches Ok((sel, liars, dec)) && is_selection(
            actor_views(actors@),
            actor_count as nat,
            actor_views(sel@),
        ) && is_liar_choice(actor_views(sel@), liar_count as nat, string_views(liars@))
            && is_deception_choice(string_views(liars@), pattern_views(catalog@), dec@)),
{
    if actors.len() < actor_count {
        return Err(SelectError::PoolTooSmall { needed: actor_count, available: actors.len() });
    }
    if liar_count > actor_count {
        return Err(SelectError::TooManyLiars);
    }
    if catalog.len() == 0 {
        return Err(SelectError::EmptyCatalog);
    }
    let ghost pool = actor_views(actors@);
    // the actors of the game, drawn at random
    let perm = shuffled_range(actors.len());
    let selected = select_at(actors, perm.as_slice(), actor_count);
    let ghost sel = actor_views(selected@);
    proof {
        let p = perm@.take(actor_count as int);
        assert(p.no_duplicates()) by {
            assert forall|i: int, j: int| 0 <= i < p.len() && 0 <= j < p.len() && i != j implies p[i]
                != p[j] by {
                assert(p[i] == perm@[i] && p[j] == perm@[j]);
            }
        }
        assert forall|k2: int| 0 <= k2 < actor_count implies p[k2] < pool.len() && #[trigger] sel[k2]
            == pool[p[k2] as int] by {
            assert(p[k2] == perm@[k2]);
        }
        assert(picks_at(pool, sel, p));
        assert(is_selection(pool, actor_count as nat, sel));
    }
    // the liars among them, drawn at random
    let lp = shuffled_range(actor_count);
    let liar_ids = liar_ids_at(selected.as_slice(), lp.as_slice(), liar_count);
    let ghost liars = string_views(liar_ids@);
    proof {
        let q = lp@.take(liar_count as int);
        assert(q.no_duplicates()) by {
            assert forall|i: int, i2: int| 0 <= i < q.len() && 0 <= i2 < q.len() && i != i2 implies q[i]
                != q[i2] by {
                assert(q[i] == lp@[i] && q[i2] == lp@[i2]);
            }
        }
        assert forall|j2: int| 0 <= j2 < liar_count implies q[j2] < sel.len() && #[trigger] liars[j2]
            == sel[q[j2] as int].id by {
            assert(q[j2] == lp@[j2]);
        }
        assert(liars_at(sel, liars, q));
        assert(is_liar_choice(sel, liar_count as nat, liars));
    }
    // a pattern for every liar, drawn for the actor with its id
    let mut patterns: Vec<DeceptionPattern> = Vec::new();
    let mut t: usize = 0;
    while t < liar_count
        invariant
            t <= liar_count <= actor_count,
            selected@.len() == actor_count,
            liar_ids@.len() == liar_count,
            catalog@.len() > 0,
            patterns@.len() == t,
            forall|j: int|
                0 <= j < t ==> exists|c: int|
                    0 <= c < catalog@.len() && #[trigger] patterns@[j]@ == catalog@[c]@,
        decreases liar_count - t,
    {
        let liar_id = &liar_ids[t];
        let mut found: usize = 0;
        let mut s: usize = 0;
        while s < selected.len()
            invariant
                s <= selected@.len(),
                selected@.len() > 0,
                found < selected@.len(),
            decreases selected@.len() - s,
        {
            if str_eq(selected[s].id.as_str(), liar_id.as_str()) {
                found = s;
                break;
            }
            s = s + 1;
        }
        let pattern = pick_deception(&selected[found], catalog);
        proof {
            assert forall|j: int| 0 <= j < t + 1 implies exists|c: int|
                0 <= c < catalog@.len() && #[trigger] patterns@.push(pattern)[j]@ == catalog@[c]@ by {
                if j < t {
                    assert(patterns@.push(pattern)[j] == patterns@[j]);
                }
            }
        }
        patterns.push(pattern);
        t = t + 1;
    }
    let deceptions = deceptions_for(liar_ids.as_slice(), patterns.as_slice());
    proof {
        let pats = pattern_views(patterns@);
        lemma_deception_map(liars, pats);
        assert forall|key: Seq<char>| #[trigger] deceptions@.contains_key(key) implies exists|c: int|
            0 <= c < catalog@.len() && deceptions@[key] == pattern_views(catalog@)[c] by {
            let j = choose|j: int| 0 <= j < pats.len() && deceptions@[key] == pats[j];
            assert(pats[j] == patterns@[j]@);
            let c = choose|c: int| 0 <= c < catalog@.len() && patterns@[j]@ == catalog@[c]@;
            assert(pattern_views(catalog@)[c] == catalog@[c]@);
        }
    }
    Ok((selected, liar_ids, deceptions))
}

// ── laws of a line-up ───────────────────────────────────────────────────────

/// The ids of a list of actors are pairwise distinct.
pub open spec fn ids_distinct(s: Seq<ActorView>) -> bool {
    forall|i: int, j: int| 0 <= i < s.len() && 0 <= j < s.len() && i != j ==> s[i].id != s[j].id
}

/// The ids of a list of actors, in order.
pub open spec fn ids_of(s: Seq<ActorView>) -> Seq<Seq<char>> {
    s.map_values(|a: ActorView| a.id)
}

/// Actors drawn from a pool whose ids are distinct have distinct ids: no actor
/// is drawn twice, in a line-up or in a round of speakers.
pub proof fn lemma_selection_distinct(pool: Seq<ActorView>, count: nat, sel: Seq<ActorView>)
    requires
        is_selection(pool, count, sel),
        ids_distinct(pool),
    ensures
        ids_distinct(sel),
{
    let p = choose|p: Seq<usize>| picks_at(pool, sel, p);
    assert forall|i: int, j: int| 0 <= i < sel.len() && 0 <= j < sel.len() && i != j implies sel[i].id
        != sel[j].id by {
        assert(sel[i] == pool[p[i] as int]);
        assert(sel[j] == pool[p[j] as int]);
        assert(p[i] != p[j]);
    }
}

/// In a line-up whose ids are distinct, the liars are `count` distinct actors of
/// the line-up, and exactly `count` ids hold a deception pattern, one each.
pub proof fn lemma_liars_of_lineup(
    sel: Seq<ActorView>,
    count: nat,
    liars: Seq<Seq<char>>,
    catalog: Seq<DeceptionPatternView>,
    dec: Map<Seq<char>, DeceptionPatternView>,
)
    requires
        is_liar_choice(sel, count, liars),
        is_deception_choice(liars, catalog, dec),
        ids_distinct(sel),
    ensures
        liars.no_duplicates(),
        forall|j: int| 0 <= j < count ==> ids_of(sel).contains(#[trigger] liars[j]),
        dec.dom().len() == count,
        forall|j: int| 0 <= j < count ==> dec.contains_key(#[trigger] liars[j]),
{
    let q = choose|q: Seq<usize>| liars_at(sel, liars, q);
    assert forall|i: int, j: int| 0 <= i < liars.len() && 0 <= j < liars.len() && i != j implies liars[i]
        != liars[j] by {
        assert(liars[i] == sel[q[i] as int].id);
        assert(liars[j] == sel[q[j] as int].id);
        assert(q[i] != q[j]);
    }
    assert forall|j: int| 0 <= j < count implies ids_of(sel).contains(#[trigger] liars[j]) by {
        assert(ids_of(sel)[q[j] as int] == liars[j]);
    }
    liars.unique_seq_to_set();
    assert forall|j: int| 0 <= j < count implies dec.contains_key(#[trigger] liars[j]) by {
        assert(liars.to_set().contains(liars[j]));
    }
}

} // verus!

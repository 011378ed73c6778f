//! Who speaks next: an algorithmic director that favours eager and long-silent
//! actors, and a moderator director where one actor, through the model,
//! invites the others.

use vstd::prelude::*;
use crate::actor::{Actor, ActorView, actor_views, lemma_actor_views_push};
use crate::session::{ChatTurn, ChatTurnView, turn_views};
use crate::selector::{is_selection, picks_at, ids_distinct, lemma_selection_distinct};
use crate::chance::{draw_usize_between, draw_weighted, weights_sum, lemma_weights_sum_bound};
use crate::prompts::{
    STUDENT_ID, NAME_OPEN, MOD_ROLE, MOD_RECENT, MOD_SILENT, MOD_ASK, MOD_TO, MOD_FORMAT,
    NO_TALK_YET, NOBODY_MARK, AVOID_OPEN, AVOID_CLOSE, SPEAKER_SEP, NEWLINE, TRAIT_SEP,
};
use crate::text::{
    str_eq, trim, trimmed, views, chars_of, string_of, join_spec, join_strings, string_views,
    lemma_string_views_push, decimal, push_decimal,
};
use crate::fragments::{split_pieces, keep_trimmed, split_trimmed, char_in};
use crate::actor::{first_with_id, find_actor, lemma_first_with_id_bounds};

verus! {

/// What a director looks at: the actors and the transcript.
pub struct TurnContext<'a> {
    pub actors: &'a [Actor],
    pub transcript: &'a [ChatTurn],
}

/// How many student turns came after the actor's last turn (all of them, where
/// the actor has not spoken).
pub open spec fn silence(ts: Seq<ChatTurnView>, id: Seq<char>) -> nat
    decreases ts.len(),
{
    if ts.len() == 0 {
        0
    } else if ts.last().speaker_id == id {
        0
    } else if ts.last().speaker_id == STUDENT_ID@ {
        silence(ts.drop_last(), id) + 1
    } else {
        silence(ts.drop_last(), id)
    }
}

pub proof fn lemma_silence_bound(ts: Seq<ChatTurnView>, id: Seq<char>)
    ensures
        silence(ts, id) <= ts.len(),
    decreases ts.len(),
{
    if ts.len() > 0 {
        lemma_silence_bound(ts.drop_last(), id);
    }
}

/// How many of the turns are the student's.
pub open spec fn student_turns(ts: Seq<ChatTurnView>) -> nat
    decreases ts.len(),
{
    if ts.len() == 0 {
        0
    } else if ts.last().speaker_id == STUDENT_ID@ {
        student_turns(ts.drop_last()) + 1
    } else {
        student_turns(ts.drop_last())
    }
}

/// An actor's silence is the number of student turns after its last turn (in
/// the whole transcript where it has not spoken): `j` is the position just
/// after that turn, or 0 where there is none.
pub proof fn lemma_silence_counts_student_turns(ts: Seq<ChatTurnView>, id: Seq<char>, j: int)
    requires
        0 <= j <= ts.len(),
        j == 0 || ts[j - 1].speaker_id == id,
        forall|i: int| j <= i < ts.len() ==> #[trigger] ts[i].speaker_id != id,
    ensures
        silence(ts, id) == student_turns(ts.skip(j)),
    decreases ts.len(),
{
    if ts.len() == j {
        assert(ts.skip(j) =~= Seq::<ChatTurnView>::empty());
    } else {
        let rest = ts.drop_last();
        assert forall|i: int| j <= i < rest.len() implies #[trigger] rest[i].speaker_id != id by {
            assert(rest[i] == ts[i]);
        }
        if j > 0 {
            assert(rest[j - 1] == ts[j - 1]);
        }
        lemma_silence_counts_student_turns(rest, id, j);
        assert(ts.skip(j).drop_last() =~= rest.skip(j));
        assert(ts.skip(j).last() == ts.last());
        assert(ts[ts.len() - 1].speaker_id != id);
    }
}

/// The speaker of the last turn that is not the student's.
pub open spec fn last_non_student(ts: Seq<ChatTurnView>) -> Option<Seq<char>>
    decreases ts.len(),
{
    if ts.len() == 0 {
        None
    } else if ts.last().speaker_id != STUDENT_ID@ {
        Some(ts.last().speaker_id)
    } else {
        last_non_student(ts.drop_last())
    }
}

/// An actor's pull towards speaking: eagerness plus twice its silence.
pub open spec fn base_weight(a: ActorView, ts: Seq<ChatTurnView>) -> int {
    a.eagerness + 2 * silence(ts, a.id)
}

/// The weight of an actor in a draw: its base weight, times 20 unless it was
/// the last to speak (so the last speaker has a twentieth of its usual chance).
pub open spec fn speaker_weight(a: ActorView, ts: Seq<ChatTurnView>) -> int {
    if last_non_student(ts) == Some(a.id) {
        base_weight(a, ts)
    } else {
        20 * base_weight(a, ts)
    }
}

impl<'a> TurnContext<'a> {
    pub open spec fn turns(&self) -> Seq<ChatTurnView> {
        turn_views(self.transcript@)
    }

    /// How many student turns came after the actor's last turn.
    pub fn silence_count(&self, actor_id: &str) -> (r: u32)
        requires
            self.transcript@.len() <= u32::MAX,
        ensures
            r == silence(self.turns(), actor_id@),
    {
        let ghost ts = self.turns();
        let mut count: u32 = 0;
        let mut i: usize = self.transcript.len();
        assert(ts.take(i as int) =~= ts);
        while i > 0
            invariant
                i <= self.transcript@.len() <= u32::MAX,
                ts == self.turns(),
                count + i <= self.transcript@.len(),
                silence(ts, actor_id@) == count + silence(ts.take(i as int), actor_id@),
            decreases i,
        {
            let t = &self.transcript[i - 1];
            proof {
                assert(ts.take(i as int).drop_last() =~= ts.take(i - 1));
                assert(ts.take(i as int).last() == t@);
            }
            if str_eq(t.speaker_id.as_str(), actor_id) {
                return count;
            }
            if str_eq(t.speaker_id.as_str(), STUDENT_ID) {
                count = count + 1;
            }
            i = i - 1;
        }
        count
    }

    /// The position of the last turn that is not the student's.
    fn last_non_student_turn(&self) -> (r: Option<usize>)
        ensures
            match r {
                Some(k) => k < self.transcript@.len() && last_non_student(self.turns()) == Some(
                    self.transcript@[k as int].speaker_id@,
                ),
                None => last_non_student(self.turns()) is None,
            },
    {
        let ghost ts = self.turns();
        let mut i: usize = self.transcript.len();
        assert(ts.take(i as int) =~= ts);
        while i > 0
            invariant
                i <= self.transcript@.len(),
                ts == self.turns(),
                last_non_student(ts) == last_non_student(ts.take(i as int)),
            decreases i,
        {
            let t = &self.transcript[i - 1];
            proof {
                assert(ts.take(i as int).drop_last() =~= ts.take(i - 1));
                assert(ts.take(i as int).last() == t@);
            }
            if !str_eq(t.speaker_id.as_str(), STUDENT_ID) {
                return Some(i - 1);
            }
            i = i - 1;
        }
        None
    }
}


/// The draw weights of the actors of a pool.
fn pool_weights(ctx: &TurnContext, pool: &Vec<Actor>, last: Option<usize>) -> (r: Vec<u128>)
    requires
        ctx.transcript@.len() <= u32::MAX,
        match last {
            Some(k) => k < ctx.transcript@.len() && last_non_student(ctx.turns()) == Some(
                ctx.transcript@[k as int].speaker_id@,
            ),
            None => last_non_student(ctx.turns()) is None,
        },
    ensures
        r@.len() == pool@.len(),
        forall|j: int| 0 <= j < pool@.len() ==> r@[j] == speaker_weight(pool@[j]@, ctx.turns()),
        weights_sum(r@) <= u128::MAX,
{
    let mut r: Vec<u128> = Vec::new();
    let mut j: usize = 0;
    while j < pool.len()
        invariant
            j <= pool@.len(),
            ctx.transcript@.len() <= u32::MAX,
            match last {
                Some(k) => k < ctx.transcript@.len() && last_non_student(ctx.turns()) == Some(
                    ctx.transcript@[k as int].speaker_id@,
                ),
                None => last_non_student(ctx.turns()) is None,
            },
            r@.len() == j,
            forall|i: int| 0 <= i < j ==> r@[i] == speaker_weight(pool@[i]@, ctx.turns()),
            forall|i: int| 0 <= i < j ==> r@[i] <= 0x100_0000_0000,
        decreases pool@.len() - j,
    {
        let a = &pool[j];
        let silence = ctx.silence_count(a.id.as_str());
        proof {
            lemma_silence_bound(ctx.turns(), a.id@);
        }
        let base: u128 = a.eagerness as u128 + 2 * silence as u128;
        let is_last = match last {
            Some(k) => str_eq(ctx.transcript[k].speaker_id.as_str(), a.id.as_str()),
            None => false,
        };
        let w: u128 = if is_last {
            base
        } else {
            20 * base
        };
        r.push(w);
        j = j + 1;
    }
    proof {
        lemma_weights_sum_bound(r@, 0x100_0000_0000);
        assert(r@.len() * 0x100_0000_0000 <= u128::MAX) by (nonlinear_arith)
            requires
                r@.len() <= usize::MAX,
                usize::MAX <= 0xffff_ffff_ffff_ffff,
        ;
    }
    r
}

/// The draws fit a pool of `n`: the draw of step `t` is a position among the
/// `n - t` actors still in the pool.
pub open spec fn draws_fit(n: nat, draws: Seq<usize>) -> bool {
    forall|t: int| 0 <= t < draws.len() ==> #[trigger] draws[t] + t < n
}

/// The actors drawn one after the other without replacement, and those left:
/// draw `t` takes the actor at that position among those still in the pool.
pub open spec fn drawn_order(pool: Seq<ActorView>, draws: Seq<usize>) -> (
    Seq<ActorView>,
    Seq<ActorView>,
)
    decreases draws.len(),
{
    if draws.len() == 0 {
        (Seq::empty(), pool)
    } else {
        let (picked, rest) = drawn_order(pool, draws.drop_last());
        let i = draws.last() as int;
        (picked.push(rest[i]), rest.remove(i))
    }
}

proof fn lemma_actor_views_remove(v: Seq<Actor>, i: int)
    requires
        0 <= i < v.len(),
    ensures
        actor_views(v.remove(i)) == actor_views(v).remove(i),
{
    assert(actor_views(v.remove(i)) =~= actor_views(v).remove(i));
}

/// Copies of the actors, in order.
fn copy_actors(actors: &[Actor]) -> (r: Vec<Actor>)
    ensures
        actor_views(r@) == actor_views(actors@),
{
    let mut r: Vec<Actor> = Vec::new();
    let mut k: usize = 0;
    while k < actors.len()
        invariant
            k <= actors@.len(),
            actor_views(r@) == actor_views(actors@.take(k as int)),
        decreases actors@.len() - k,
    {
        let a = actors[k].clone();
        proof {
            lemma_actor_views_push(r@, a);
            assert(actors@.take(k + 1) =~= actors@.take(k as int).push(actors@[k as int]));
        }
        r.push(a);
        k = k + 1;
    }
    assert(actors@.take(actors@.len() as int) =~= actors@);
    r
}

/// The speakers given by the draws of a round (see `drawn_order`): each draw
/// takes the actor at that position among those not yet drawn.
pub fn line_up_from_draws(actors: &[Actor], draws: &[usize]) -> (r: Vec<Actor>)
    requires
        draws_fit(actors@.len(), draws@),
    ensures
        actor_views(r@) == drawn_order(actor_views(actors@), draws@).0,
{
    let ghost av = actor_views(actors@);
    let mut rest = copy_actors(actors);
    let mut r: Vec<Actor> = Vec::new();
    let mut t: usize = 0;
    while t < draws.len()
        invariant
            t <= draws@.len(),
            av == actor_views(actors@),
            draws_fit(actors@.len(), draws@),
            actor_views(r@) == drawn_order(av, draws@.take(t as int)).0,
            actor_views(rest@) == drawn_order(av, draws@.take(t as int)).1,
            rest@.len() + t == actors@.len(),
        decreases draws@.len() - t,
    {
        proof {
            assert(draws@.take(t + 1).drop_last() =~= draws@.take(t as int));
            assert(draws@[t as int] + t < actors@.len());
        }
        let i = draws[t];
        let ghost before = rest@;
        let a = rest.remove(i);
        proof {
            lemma_actor_views_remove(before, i as int);
            lemma_actor_views_push(r@, a);
        }
        r.push(a);
        t = t + 1;
    }
    assert(draws@.take(draws@.len() as int) =~= draws@);
    r
}

/// How many actors have a positive base weight.
pub open spec fn positive_count(actors: Seq<ActorView>, ts: Seq<ChatTurnView>) -> nat {
    Set::new(|i: int| 0 <= i < actors.len() && base_weight(actors[i], ts) > 0).len()
}

/// Draws the speakers of a round: between `max(min(min, upper), 1)` and
/// `upper = min(max, number of actors)` of them (how many is drawn uniformly),
/// one after the other without replacement, each with chance proportional to
/// its `speaker_weight`, so an actor of weight 0 is never drawn. The draw stops
/// early only if every remaining actor has weight 0, so at least the lower bound
/// or every actor of positive weight is drawn.
pub fn algorithmic_pick(ctx: &TurnContext, min: usize, max: usize) -> (r: Vec<Actor>)
    requires
        ctx.transcript@.len() <= u32::MAX,
        ctx.actors@.len() == 0 || max >= 1,
    ensures
        ctx.actors@.len() == 0 ==> r@.len() == 0,
        r@.len() <= max,
        r@.len() <= ctx.actors@.len(),
        is_selection(actor_views(ctx.actors@), r@.len(), actor_views(r@)),
        forall|i: int| 0 <= i < r@.len() ==> base_weight(#[trigger] r@[i]@, ctx.turns()) > 0,
        (forall|i: int|
            0 <= i < ctx.actors@.len() ==> base_weight(#[trigger] ctx.actors@[i]@, ctx.turns()) > 0)
            ==> r@.len() >= pick_lower(min, max, ctx.actors@.len()),
        r@.len() >= pick_lower(min, max, ctx.actors@.len()) || r@.len() >= positive_count(
            actor_views(ctx.actors@),
            ctx.turns(),
        ),
        drawn_from(actor_views(r@), actor_views(ctx.actors@)),
        ids_distinct(actor_views(ctx.actors@)) ==> ids_distinct(actor_views(r@)),
        exists|d: Seq<usize>|
            draws_fit(ctx.actors@.len(), d) && #[trigger] drawn_order(actor_views(ctx.actors@), d).0
                == actor_views(r@),
{
    let pool_size = ctx.actors.len();
    if pool_size == 0 {
        let r: Vec<Actor> = Vec::new();
        proof {
            assert(is_selection(actor_views(ctx.actors@), 0, actor_views(r@))) by {
                let p: Seq<usize> = Seq::empty();
                assert(p.no_duplicates());
                assert(actor_views(r@) =~= Seq::<ActorView>::empty());
                assert(picks_at(actor_views(ctx.actors@), actor_views(r@), p));
            }
            let d: Seq<usize> = Seq::empty();
            assert(drawn_order(actor_views(ctx.actors@), d).0 == actor_views(r@));
        }
        return r;
    }
    let upper = if max < pool_size {
        max
    } else {
        pool_size
    };
    let lower0 = if min < upper {
        min
    } else {
        upper
    };
    let lower = if lower0 > 1 {
        lower0
    } else {
        1
    };
    let count = draw_usize_between(lower, upper);
    let last = ctx.last_non_student_turn();
    let ghost av = actor_views(ctx.actors@);
    let ghost ts = ctx.turns();
    let mut pool = copy_actors(ctx.actors);
    assert forall|j: int| 0 <= j < pool_size implies #[trigger] pool@[j]@ == av[j] by {
        assert(actor_views(pool@)[j] == pool@[j]@);
    }
    let ghost mut orig: Seq<usize> = Seq::new(pool_size as nat, |j: int| j as usize);
    let ghost mut pos: Seq<usize> = Seq::empty();
    assert forall|i: usize| i < pool_size implies #[trigger] orig.contains(i) || pos.contains(i) by {
        assert(orig[i as int] == i);
    }
    let ghost mut picked: Seq<ActorView> = Seq::empty();
    let mut draws: Vec<usize> = Vec::new();
    assert(draws@ =~= Seq::<usize>::empty());
    assert(actor_views(pool@) == drawn_order(av, draws@).1);
    let mut step: usize = 0;
    let mut stop = false;
    while step < count && !stop
        invariant
            1 <= count <= upper <= pool_size,
            upper <= max,
            pool_size == ctx.actors@.len(),
            av == actor_views(ctx.actors@),
            ts == ctx.turns(),
            ctx.transcript@.len() <= u32::MAX,
            match last {
                Some(k) => k < ctx.transcript@.len() && last_non_student(ctx.turns()) == Some(
                    ctx.transcript@[k as int].speaker_id@,
                ),
                None => last_non_student(ctx.turns()) is None,
            },
            step <= count,
            picked.len() == step,
            draws@.len() == step,
            draws_fit(pool_size as nat, draws@),
            picked == drawn_order(av, draws@).0,
            actor_views(pool@) == drawn_order(av, draws@).1,
            pos.len() == step,
            pool@.len() == orig.len(),
            pool@.len() + step == pool_size,
            forall|j: int| 0 <= j < orig.len() ==> orig[j] < pool_size,
            forall|j: int| 0 <= j < pos.len() ==> pos[j] < pool_size,
            forall|j: int| 0 <= j < orig.len() ==> #[trigger] pool@[j]@ == av[orig[j] as int],
            forall|j: int| 0 <= j < pos.len() ==> #[trigger] picked[j] == av[pos[j] as int],
            forall|j: int| 0 <= j < picked.len() ==> base_weight(#[trigger] picked[j], ts) > 0,
            orig.no_duplicates(),
            pos.no_duplicates(),
            forall|a: int, b: int| 0 <= a < pos.len() && 0 <= b < orig.len() ==> pos[a] != orig[b],
            !stop ==> picked.len() == step,
            stop ==> exists|j: int|
                0 <= j < orig.len() && base_weight(#[trigger] pool@[j]@, ts) <= 0,
            stop ==> forall|j: int| 0 <= j < orig.len() ==> base_weight(#[trigger] pool@[j]@, ts) <= 0,
            forall|i: usize| i < pool_size ==> #[trigger] orig.contains(i) || pos.contains(i),
        decreases (count - step) + if stop {
            0int
        } else {
            1int
        },
    {
        let weights = pool_weights(ctx, &pool, last);
        match draw_weighted(&weights) {
            None => {
                proof {
                    assert(pool@.len() > 0);
                    assert(weights@[0] == 0);
                    assert(base_weight(pool@[0]@, ts) <= 0);
                    assert forall|j: int| 0 <= j < orig.len() implies base_weight(
                        #[trigger] pool@[j]@,
                        ts,
                    ) <= 0 by {
                        assert(weights@[j] == 0);
                        assert(weights@[j] == speaker_weight(pool@[j]@, ts));
                    }
                }
                stop = true;
            },
            Some(idx) => {
                proof {
                    assert(weights@[idx as int] == speaker_weight(pool@[idx as int]@, ts));
                    assert(base_weight(pool@[idx as int]@, ts) > 0);
                }
                let ghost before = pool@;
                let a = pool.remove(idx);
                proof {
                    assert forall|j: int| 0 <= j < picked.len() + 1 implies base_weight(
                        #[trigger] picked.push(a@)[j],
                        ts,
                    ) > 0 by {
                        if j < picked.len() {
                            assert(picked.push(a@)[j] == picked[j]);
                        }
                    }
                    let o = orig[idx as int];
                    assert(a@ == av[o as int]);
                    let orig0 = orig;
                    let pos0 = pos;
                    assert forall|i: usize| i < pool_size implies #[trigger] orig0.remove(
                        idx as int,
                    ).contains(i) || pos0.push(o).contains(i) by {
                        if pos0.contains(i) {
                            let q = choose|q: int| 0 <= q < pos0.len() && pos0[q] == i;
                            assert(pos0.push(o)[q] == i);
                        } else {
                            assert(orig0.contains(i));
                            let q = choose|q: int| 0 <= q < orig0.len() && orig0[q] == i;
                            if q == idx {
                                assert(pos0.push(o)[pos0.len() as int] == i);
                            } else if q < idx {
                                assert(orig0.remove(idx as int)[q] == i);
                            } else {
                                assert(orig0.remove(idx as int)[q - 1] == i);
                            }
                        }
                    }
                    orig = orig.remove(idx as int);
                    pos = pos.push(o);
                    assert forall|j: int| 0 <= j < pos.len() implies #[trigger] picked.push(a@)[j]
                        == av[pos[j] as int] by {
                        if j < pos.len() - 1 {
                            assert(picked.push(a@)[j] == picked[j]);
                        }
                    }
                    lemma_actor_views_remove(before, idx as int);
                    assert(draws@.push(idx).drop_last() =~= draws@);
                    assert(actor_views(before)[idx as int] == a@);
                    picked = picked.push(a@);
                }
                draws.push(idx);
                step = step + 1;
            },
        }
    }
    proof {
        assert(is_selection(av, picked.len(), picked)) by {
            assert forall|j: int| 0 <= j < picked.len() implies pos[j] < av.len() && #[trigger] picked[j]
                == av[pos[j] as int] by {}
            assert(picks_at(av, picked, pos));
        }
        if stop {
            let pset = Set::new(|i: int| 0 <= i < av.len() && base_weight(av[i], ts) > 0);
            let pints = pos.map_values(|u: usize| u as int);
            assert forall|i: int| pset.contains(i) implies pints.to_set().contains(i) by {
                let u = i as usize;
                assert(u < pool_size);
                if orig.contains(u) {
                    let q = choose|q: int| 0 <= q < orig.len() && orig[q] == u;
                    assert(pool@[q]@ == av[orig[q] as int]);
                    assert(base_weight(pool@[q]@, ts) <= 0);
                } else {
                    assert(pos.contains(u));
                    let q = choose|q: int| 0 <= q < pos.len() && pos[q] == u;
                    assert(pints[q] == i);
                }
            }
            pints.lemma_cardinality_of_set();
            vstd::seq_lib::seq_to_set_is_finite(pints);
            vstd::set_lib::lemma_len_subset(pset, pints.to_set());
            assert(positive_count(av, ts) <= picked.len());
        }
        if forall|i: int| 0 <= i < ctx.actors@.len() ==> base_weight(#[trigger] ctx.actors@[i]@, ts) > 0 {
            if stop {
                let j = choose|j: int| 0 <= j < orig.len() && base_weight(#[trigger] pool@[j]@, ts) <= 0;
                assert(pool@[j]@ == av[orig[j] as int]);
                assert(base_weight(ctx.actors@[orig[j] as int]@, ts) > 0);
            }
        }
    }
    let r = line_up_from_draws(ctx.actors, draws.as_slice());
    proof {
        assert(actor_views(r@) == picked);
        assert forall|j: int| 0 <= j < r@.len() implies base_weight(#[trigger] r@[j]@, ts) > 0 by {
            assert(actor_views(r@)[j] == r@[j]@);
        }
        lemma_selection_drawn_from(av, picked);
        if ids_distinct(av) {
            lemma_selection_distinct(av, picked.len(), picked);
        }
    }
    r
}

/// The least number of speakers that `algorithmic_pick` draws from a pool of
/// `n` actors (where every actor has a positive weight).
pub open spec fn pick_lower(min: usize, max: usize, n: nat) -> nat {
    let upper: nat = if max < n {
        max as nat
    } else {
        n
    };
    let lower0: nat = if min < upper {
        min as nat
    } else {
        upper
    };
    if n == 0 {
        0
    } else if lower0 > 1 {
        lower0
    } else {
        1
    }
}

/// The purely algorithmic director.
pub struct AlgorithmicDirector {
    pub min_speakers: usize,
    pub max_speakers: usize,
}

impl AlgorithmicDirector {
    pub fn new(min_speakers: usize, max_speakers: usize) -> (r: Self)
        ensures
            r.min_speakers == min_speakers,
            r.max_speakers == max_speakers,
    {
        AlgorithmicDirector { min_speakers, max_speakers }
    }

    /// The speakers of the next round (see `algorithmic_pick`).
    pub fn pick_next_speakers(&self, ctx: &TurnContext) -> (r: Vec<Actor>)
        requires
            ctx.transcript@.len() <= u32::MAX,
            ctx.actors@.len() == 0 || self.max_speakers >= 1,
        ensures
            ctx.actors@.len() == 0 ==> r@.len() == 0,
            r@.len() <= self.max_speakers,
            is_selection(actor_views(ctx.actors@), r@.len(), actor_views(r@)),
            forall|i: int| 0 <= i < r@.len() ==> base_weight(#[trigger] r@[i]@, ctx.turns()) > 0,
            (forall|i: int|
                0 <= i < ctx.actors@.len() ==> base_weight(#[trigger] ctx.actors@[i]@, ctx.turns())
                    > 0) ==> r@.len() >= pick_lower(
                self.min_speakers,
                self.max_speakers,
                ctx.actors@.len(),
            ),
            r@.len() >= pick_lower(self.min_speakers, self.max_speakers, ctx.actors@.len())
                || r@.len() >= positive_count(actor_views(ctx.actors@), ctx.turns()),
            drawn_from(actor_views(r@), actor_views(ctx.actors@)),
            ids_distinct(actor_views(ctx.actors@)) ==> ids_distinct(actor_views(r@)),
            exists|d: Seq<usize>|
                draws_fit(ctx.actors@.len(), d) && #[trigger] drawn_order(
                    actor_views(ctx.actors@),
                    d,
                ).0 == actor_views(r@),
    {
        algorithmic_pick(ctx, self.min_speakers, self.max_speakers)
    }
}

impl Default for AlgorithmicDirector {
    fn default() -> (r: Self)
        ensures
            r.min_speakers == 1,
            r.max_speakers == 3,
    {
        AlgorithmicDirector::new(1, 3)
    }
}

// ── reading the moderator's reply ───────────────────────────────────────────

/// The characters that separate names in the moderator's reply.
pub open spec fn name_separators() -> Seq<char> {
    seq![',', '，', '、', '\n']
}

/// Brackets and quote marks removed from a name.
pub open spec fn quote_marks() -> Seq<char> {
    seq!['[', ']', '「', '」', '『', '』', '"', '\'']
}

/// The text without the characters of a set.
pub open spec fn without_chars(s: Seq<char>, set: Seq<char>) -> Seq<char>
    decreases s.len(),
{
    if s.len() == 0 {
        s
    } else if set.contains(s.last()) {
        without_chars(s.drop_last(), set)
    } else {
        without_chars(s.drop_last(), set).push(s.last())
    }
}

/// The position of the first actor whose name or id is the given text.
pub open spec fn first_named(s: Seq<ActorView>, t: Seq<char>) -> Option<int>
    decreases s.len(),
{
    if s.len() == 0 {
        None
    } else {
        match first_named(s.drop_last(), t) {
            Some(i) => Some(i),
            None => if s.last().name == t || s.last().id == t {
                Some(s.len() - 1)
            } else {
                None
            },
        }
    }
}

pub open spec fn has_id(s: Seq<ActorView>, id: Seq<char>) -> bool {
    exists|i: int| 0 <= i < s.len() && s[i].id == id
}

/// One step of reading the reply: a name (brackets and quotes removed, trimmed)
/// that belongs to an actor not picked yet adds that actor; after `max` picks
/// the rest is ignored.
pub open spec fn pick_step(
    state: (Seq<ActorView>, bool),
    token: Seq<char>,
    actors: Seq<ActorView>,
    max: nat,
) -> (Seq<ActorView>, bool) {
    let (picked, done) = state;
    let t = trim(without_chars(token, quote_marks()));
    if done || t.len() == 0 {
        state
    } else {
        match first_named(actors, t) {
            None => state,
            Some(k) => if has_id(picked, actors[k].id) {
                state
            } else {
                (picked.push(actors[k]), picked.len() + 1 >= max)
            },
        }
    }
}

pub open spec fn pick_scan(tokens: Seq<Seq<char>>, actors: Seq<ActorView>, max: nat) -> (
    Seq<ActorView>,
    bool,
)
    decreases tokens.len(),
{
    if tokens.len() == 0 {
        (Seq::empty(), false)
    } else {
        pick_step(pick_scan(tokens.drop_last(), actors, max), tokens.last(), actors, max)
    }
}

/// The actors a moderator reply names, in order, each once, at most `max`
/// (the reply is trimmed and cut at `, ， 、` and line breaks).
pub open spec fn parsed_picks(raw: Seq<char>, actors: Seq<ActorView>, max: nat) -> Seq<ActorView> {
    pick_scan(keep_trimmed(split_pieces(trim(raw), name_separators())), actors, max).0
}

fn remove_chars(v: &Vec<char>, set: &[char]) -> (r: Vec<char>)
    ensures
        r@ == without_chars(v@, set@),
{
    let mut r: Vec<char> = Vec::new();
    let mut i: usize = 0;
    while i < v.len()
        invariant
            i <= v@.len(),
            r@ == without_chars(v@.take(i as int), set@),
        decreases v@.len() - i,
    {
        proof {
            assert(v@.take(i + 1).drop_last() =~= v@.take(i as int));
        }
        if !char_in(v[i], set) {
            r.push(v[i]);
        }
        i = i + 1;
    }
    assert(v@.take(v@.len() as int) =~= v@);
    r
}

proof fn lemma_first_named_extends(s: Seq<ActorView>, t: Seq<char>, n: int)
    requires
        0 <= n <= s.len(),
        first_named(s.take(n), t) is Some,
    ensures
        first_named(s, t) == first_named(s.take(n), t),
    decreases s.len() - n,
{
    if n == s.len() {
        assert(s.take(n) =~= s);
    } else {
        assert(s.take(n + 1).drop_last() =~= s.take(n));
        lemma_first_named_extends(s, t, n + 1);
    }
}

proof fn lemma_first_named_bounds(s: Seq<ActorView>, t: Seq<char>)
    ensures
        first_named(s, t) matches Some(i) ==> 0 <= i < s.len(),
    decreases s.len(),
{
    if s.len() > 0 {
        lemma_first_named_bounds(s.drop_last(), t);
    }
}

/// A name in a moderator's reply picks the first actor whose name or id it is,
/// and no actor where none has it as name or id.
pub proof fn lemma_first_named_matches(s: Seq<ActorView>, t: Seq<char>)
    ensures
        first_named(s, t) matches Some(i) ==> 0 <= i < s.len() && (s[i].name == t || s[i].id == t)
            && forall|j: int| 0 <= j < i ==> (#[trigger] s[j]).name != t && s[j].id != t,
        first_named(s, t) is None <==> forall|j: int|
            0 <= j < s.len() ==> (#[trigger] s[j]).name != t && s[j].id != t,
    decreases s.len(),
{
    if s.len() > 0 {
        let r = s.drop_last();
        lemma_first_named_matches(r, t);
        assert forall|j: int| 0 <= j < r.len() implies #[trigger] r[j] == s[j] by {}
        if first_named(r, t) is None {
            assert forall|j: int| 0 <= j < s.len() - 1 implies (#[trigger] s[j]).name != t && s[j].id
                != t by {
                assert(r[j] == s[j]);
            }
        } else {
            match first_named(r, t) {
                Some(i) => {
                    assert(first_named(s, t) == Some(i));
                    assert(r[i] == s[i]);
                    assert forall|j: int| 0 <= j < i implies (#[trigger] s[j]).name != t && s[j].id
                        != t by {
                        assert(r[j] == s[j]);
                        assert(r[j].name != t && r[j].id != t);
                    }
                },
                None => {},
            }
        }
    }
}

fn find_named(actors: &[Actor], t: &str) -> (r: Option<usize>)
    ensures
        r matches Some(i) ==> i < actors@.len() && first_named(actor_views(actors@), t@) == Some(
            i as int,
        ),
        r is None ==> first_named(actor_views(actors@), t@) is None,
{
    let ghost s = actor_views(actors@);
    let mut i: usize = 0;
    while i < actors.len()
        invariant
            i <= actors@.len(),
            s == actor_views(actors@),
            first_named(s.take(i as int), t@) is None,
        decreases actors@.len() - i,
    {
        proof {
            assert(s.take(i + 1).drop_last() =~= s.take(i as int));
        }
        if str_eq(actors[i].name.as_str(), t) || str_eq(actors[i].id.as_str(), t) {
            proof {
                lemma_first_named_extends(s, t@, i + 1);
            }
            return Some(i);
        }
        i = i + 1;
    }
    assert(s.take(actors@.len() as int) =~= s);
    None
}

fn has_id_exec(v: &Vec<Actor>, id: &str) -> (r: bool)
    ensures
        r == has_id(actor_views(v@), id@),
{
    let mut i: usize = 0;
    while i < v.len()
        invariant
            i <= v@.len(),
            forall|j: int| 0 <= j < i ==> actor_views(v@)[j].id != id@,
        decreases v@.len() - i,
    {
        if str_eq(v[i].id.as_str(), id) {
            assert(actor_views(v@)[i as int].id == id@);
            return true;
        }
        i = i + 1;
    }
    false
}

/// The actors that a moderator reply names (see `parsed_picks`).
pub fn parse_moderator_response(raw: &str, actors: &[Actor], max: usize) -> (r: Vec<Actor>)
    ensures
        actor_views(r@) == parsed_picks(raw@, actor_views(actors@), max as nat),
{
    let ghost av = actor_views(actors@);
    let v = chars_of(raw);
    let cleaned = trimmed(&v, 0, v.len());
    proof {
        assert(v@.subrange(0, v@.len() as int) =~= v@);
    }
    let seps = [',', '，', '、', '\n'];
    assert(seps@ =~= name_separators());
    let tokens = split_trimmed(&cleaned, seps.as_slice());
    let marks = ['[', ']', '「', '」', '『', '』', '"', '\''];
    assert(marks@ =~= quote_marks());
    let ghost tv = views(tokens@);
    let mut picked: Vec<Actor> = Vec::new();
    let mut done = false;
    let mut i: usize = 0;
    while i < tokens.len()
        invariant
            i <= tokens@.len(),
            tv == views(tokens@),
            marks@ == quote_marks(),
            av == actor_views(actors@),
            (actor_views(picked@), done) == pick_scan(tv.take(i as int), av, max as nat),
        decreases tokens@.len() - i,
    {
        proof {
            assert(tv.take(i + 1).drop_last() =~= tv.take(i as int));
            assert(tv.take(i + 1).last() == tokens@[i as int]@);
        }
        if !done {
            let stripped = remove_chars(&tokens[i], marks.as_slice());
            let t = trimmed(&stripped, 0, stripped.len());
            proof {
                assert(stripped@.subrange(0, stripped@.len() as int) =~= stripped@);
            }
            if t.len() > 0 {
                let name = string_of(t.as_slice());
                match find_named(actors, name.as_str()) {
                    Some(k) => {
                        if !has_id_exec(&picked, actors[k].id.as_str()) {
                            let a = actors[k].clone();
                            proof {
                                lemma_actor_views_push(picked@, a);
                            }
                            picked.push(a);
                            done = picked.len() >= max;
                        }
                    },
                    None => {},
                }
            }
        }
        i = i + 1;
    }
    assert(tv.take(tokens@.len() as int) =~= tv);
    picked
}

// ── the moderator director ──────────────────────────────────────────────────

/// Whether the moderator speaks this round: at the opening, right after the
/// student, or after two or more student turns without speaking.
pub open spec fn should_speak_spec(ts: Seq<ChatTurnView>, moderator_id: Seq<char>) -> bool {
    ts.len() == 0 || ts.last().speaker_id == STUDENT_ID@ || silence(ts, moderator_id) >= 2
}

/// Whether the moderator speaks this round (see `should_speak_spec`).
pub fn should_moderator_speak(ctx: &TurnContext, moderator: &Actor) -> (r: bool)
    requires
        ctx.transcript@.len() <= u32::MAX,
    ensures
        r == should_speak_spec(ctx.turns(), moderator.id@),
{
    let n = ctx.transcript.len();
    if n == 0 {
        return true;
    }
    assert(ctx.turns().last() == ctx.transcript@[n - 1]@);
    if str_eq(ctx.transcript[n - 1].speaker_id.as_str(), STUDENT_ID) {
        return true;
    }
    ctx.silence_count(moderator.id.as_str()) >= 2
}

/// The names of the actors other than the moderator.
pub open spec fn other_names(actors: Seq<ActorView>, mid: Seq<char>) -> Seq<Seq<char>>
    decreases actors.len(),
{
    if actors.len() == 0 {
        Seq::empty()
    } else if actors.last().id != mid {
        other_names(actors.drop_last(), mid).push(actors.last().name)
    } else {
        other_names(actors.drop_last(), mid)
    }
}

/// The names of the actors other than the moderator that have been silent for
/// two student turns or more.
pub open spec fn silent_names(actors: Seq<ActorView>, ts: Seq<ChatTurnView>, mid: Seq<char>) -> Seq<
    Seq<char>,
>
    decreases actors.len(),
{
    if actors.len() == 0 {
        Seq::empty()
    } else if actors.last().id != mid && silence(ts, actors.last().id) >= 2 {
        silent_names(actors.drop_last(), ts, mid).push(actors.last().name)
    } else {
        silent_names(actors.drop_last(), ts, mid)
    }
}

/// The last twelve turns.
pub open spec fn last_twelve(ts: Seq<ChatTurnView>) -> Seq<ChatTurnView> {
    if ts.len() > 12 {
        ts.subrange(ts.len() - 12, ts.len() as int)
    } else {
        ts
    }
}

pub open spec fn turn_line(t: ChatTurnView) -> Seq<char> {
    t.speaker_name + SPEAKER_SEP@ + t.content
}

/// The name of the last speaker that is neither the student nor the moderator.
pub open spec fn last_other_speaker(ts: Seq<ChatTurnView>, mid: Seq<char>) -> Option<Seq<char>>
    decreases ts.len(),
{
    if ts.len() == 0 {
        None
    } else if ts.last().speaker_id != STUDENT_ID@ && ts.last().speaker_id != mid {
        Some(ts.last().speaker_name)
    } else {
        last_other_speaker(ts.drop_last(), mid)
    }
}

/// The prompt that asks the moderator whom to invite.
pub open spec fn moderator_prompt_spec(
    m: ActorView,
    actors: Seq<ActorView>,
    ts: Seq<ChatTurnView>,
    min: nat,
    max: nat,
) -> Seq<char> {
    let recent_lines = last_twelve(ts).map_values(|t: ChatTurnView| turn_line(t));
    let recent = if recent_lines.len() == 0 {
        NO_TALK_YET@
    } else {
        join_spec(recent_lines, NEWLINE@)
    };
    let avoid = match last_other_speaker(ts, m.id) {
        Some(n) => AVOID_OPEN@ + n + AVOID_CLOSE@,
        None => Seq::empty(),
    };
    let silent = silent_names(actors, ts, m.id);
    let silent_hint = if silent.len() == 0 {
        NOBODY_MARK@
    } else {
        join_spec(silent, TRAIT_SEP@)
    };
    NAME_OPEN@ + m.name + MOD_ROLE@ + join_spec(other_names(actors, m.id), TRAIT_SEP@) + MOD_RECENT@
        + recent + MOD_SILENT@ + silent_hint + NEWLINE@ + avoid + MOD_ASK@ + decimal(min) + MOD_TO@
        + decimal(max) + MOD_FORMAT@
}

/// The position of the last turn of someone other than the student and the
/// moderator.
fn last_other_turn(ctx: &TurnContext, mid: &str) -> (r: Option<usize>)
    ensures
        match r {
            Some(k) => k < ctx.transcript@.len() && last_other_speaker(ctx.turns(), mid@) == Some(
                ctx.transcript@[k as int].speaker_name@,
            ),
            None => last_other_speaker(ctx.turns(), mid@) is None,
        },
{
    let ghost ts = ctx.turns();
    let mut j = ctx.transcript.len();
    assert(ts.take(j as int) =~= ts);
    while j > 0
        invariant
            j <= ctx.transcript@.len(),
            ts == ctx.turns(),
            last_other_speaker(ts, mid@) == last_other_speaker(ts.take(j as int), mid@),
        decreases j,
    {
        let t = &ctx.transcript[j - 1];
        proof {
            assert(ts.take(j as int).drop_last() =~= ts.take(j - 1));
            assert(ts.take(j as int).last() == t@);
        }
        if !str_eq(t.speaker_id.as_str(), STUDENT_ID) && !str_eq(t.speaker_id.as_str(), mid) {
            return Some(j - 1);
        }
        j = j - 1;
    }
    None
}

/// The prompt that asks the moderator whom to invite (see `moderator_prompt_spec`).
pub fn build_moderator_prompt(moderator: &Actor, ctx: &TurnContext, min: usize, max: usize) -> (r:
    String)
    requires
        ctx.transcript@.len() <= u32::MAX,
    ensures
        r@ == moderator_prompt_spec(
            moderator@,
            actor_views(ctx.actors@),
            ctx.turns(),
            min as nat,
            max as nat,
        ),
{
    let ghost av = actor_views(ctx.actors@);
    let ghost ts = ctx.turns();
    // the others
    let mut others: Vec<String> = Vec::new();
    let mut silent: Vec<String> = Vec::new();
    let mut i: usize = 0;
    while i < ctx.actors.len()
        invariant
            i <= ctx.actors@.len(),
            av == actor_views(ctx.actors@),
            ts == ctx.turns(),
            ctx.transcript@.len() <= u32::MAX,
            string_views(others@) == other_names(av.take(i as int), moderator.id@),
            string_views(silent@) == silent_names(av.take(i as int), ts, moderator.id@),
        decreases ctx.actors@.len() - i,
    {
        let a = &ctx.actors[i];
        proof {
            assert(av.take(i + 1).drop_last() =~= av.take(i as int));
            assert(av.take(i + 1).last() == a@);
        }
        if !str_eq(a.id.as_str(), moderator.id.as_str()) {
            let n = a.name.clone();
            proof {
                lemma_string_views_push(others@, n);
            }
            others.push(n);
            if ctx.silence_count(a.id.as_str()) >= 2 {
                let n2 = a.name.clone();
                proof {
                    lemma_string_views_push(silent@, n2);
                }
                silent.push(n2);
            }
        }
        i = i + 1;
    }
    proof {
        assert(av.take(ctx.actors@.len() as int) =~= av);
    }
    // the recent conversation
    let n = ctx.transcript.len();
    let start: usize = if n > 12 {
        n - 12
    } else {
        0
    };
    let mut lines: Vec<String> = Vec::new();
    let mut k = start;
    while k < n
        invariant
            start <= k <= n == ctx.transcript@.len(),
            ts == ctx.turns(),
            string_views(lines@) == ts.subrange(start as int, k as int).map_values(
                |t: ChatTurnView| turn_line(t),
            ),
        decreases n - k,
    {
        let t = &ctx.transcript[k];
        let mut line = t.speaker_name.clone();
        line.push_str(SPEAKER_SEP);
        line.push_str(t.content.as_str());
        proof {
            lemma_string_views_push(lines@, line);
            assert(ts[k as int] == t@);
            assert(ts.subrange(start as int, k + 1).map_values(|t: ChatTurnView| turn_line(t))
                =~= ts.subrange(start as int, k as int).map_values(
                |t: ChatTurnView| turn_line(t),
            ).push(turn_line(t@)));
        }
        lines.push(line);
        k = k + 1;
    }
    proof {
        assert(ts.subrange(start as int, n as int) =~= last_twelve(ts));
    }
    // the last speaker other than the student and the moderator
    let avoid = match last_other_turn(ctx, moderator.id.as_str()) {
        Some(a) => {
            let mut h = AVOID_OPEN.to_owned();
            h.push_str(ctx.transcript[a].speaker_name.as_str());
            h.push_str(AVOID_CLOSE);
            h
        },
        None => String::new(),
    };
    let recent = if lines.len() == 0 {
        NO_TALK_YET.to_owned()
    } else {
        join_strings(&lines, NEWLINE)
    };
    let silent_hint = if silent.len() == 0 {
        NOBODY_MARK.to_owned()
    } else {
        join_strings(&silent, TRAIT_SEP)
    };
    let mut p = NAME_OPEN.to_owned();
    p.push_str(moderator.name.as_str());
    p.push_str(MOD_ROLE);
    p.push_str(join_strings(&others, TRAIT_SEP).as_str());
    p.push_str(MOD_RECENT);
    p.push_str(recent.as_str());
    p.push_str(MOD_SILENT);
    p.push_str(silent_hint.as_str());
    p.push_str(NEWLINE);
    p.push_str(avoid.as_str());
    p.push_str(MOD_ASK);
    push_decimal(&mut p, min as u64);
    p.push_str(MOD_TO);
    push_decimal(&mut p, max as u64);
    p.push_str(MOD_FORMAT);
    p
}

/// The actors of a list without the one with the given id.
pub open spec fn without_id(s: Seq<ActorView>, id: Seq<char>) -> Seq<ActorView>
    decreases s.len(),
{
    if s.len() == 0 {
        s
    } else if s.last().id == id {
        without_id(s.drop_last(), id)
    } else {
        without_id(s.drop_last(), id).push(s.last())
    }
}

/// How many others the moderator may invite: one fewer where it speaks itself.
pub open spec fn extras_max(max: usize, speaks: bool) -> nat {
    if speaks {
        if max >= 1 {
            (max - 1) as nat
        } else {
            0
        }
    } else {
        max as nat
    }
}

/// How many others the moderator must invite: one where it stays silent.
pub open spec fn extras_min(speaks: bool) -> nat {
    if speaks {
        0
    } else {
        1
    }
}

/// A moderated line-up from the actors picked besides the moderator: the
/// moderator first where it speaks, then the picked actors other than the
/// moderator, in order, at most `max` in all.
pub open spec fn line_up_spec(m: ActorView, speaks: bool, picked: Seq<ActorView>, max: usize) -> Seq<
    ActorView,
> {
    let head = if speaks {
        seq![m]
    } else {
        Seq::empty()
    };
    let all = head + without_id(picked, m.id);
    if all.len() > max {
        all.take(max as int)
    } else {
        all
    }
}

/// The line-up from a moderator reply: the moderator first where it speaks,
/// then the actors the reply names (never the moderator), at most `max` in all.
pub open spec fn moderated_picks(
    m: ActorView,
    actors: Seq<ActorView>,
    ts: Seq<ChatTurnView>,
    max: usize,
    reply: Seq<char>,
) -> Seq<ActorView> {
    let speaks = should_speak_spec(ts, m.id);
    let em = extras_max(max, speaks);
    line_up_spec(
        m,
        speaks,
        if em > 0 {
            parsed_picks(reply, actors, em)
        } else {
            Seq::empty()
        },
        max,
    )
}

/// A moderated round `r` from the line-up `line`: the line-up itself where it
/// is not empty, else actors drawn afresh from the pool.
pub open spec fn moderated_round(r: Seq<ActorView>, pool: Seq<ActorView>, line: Seq<ActorView>) -> bool {
    if line.len() > 0 {
        r == line
    } else {
        is_selection(pool, r.len(), r)
    }
}

/// Every member of `r` is one of the pool.
pub open spec fn drawn_from(r: Seq<ActorView>, pool: Seq<ActorView>) -> bool {
    forall|i: int| 0 <= i < r.len() ==> pool.contains(#[trigger] r[i])
}

proof fn lemma_selection_drawn_from(pool: Seq<ActorView>, sel: Seq<ActorView>)
    requires
        is_selection(pool, sel.len(), sel),
    ensures
        drawn_from(sel, pool),
{
    let p = choose|p: Seq<usize>| picks_at(pool, sel, p);
    assert forall|i: int| 0 <= i < sel.len() implies pool.contains(#[trigger] sel[i]) by {
        assert(sel[i] == pool[p[i] as int]);
    }
}


proof fn lemma_without_id(s: Seq<ActorView>, id: Seq<char>, pool: Seq<ActorView>)
    requires
        drawn_from(s, pool),
    ensures
        drawn_from(without_id(s, id), pool),
        forall|i: int| 0 <= i < without_id(s, id).len() ==> #[trigger] without_id(s, id)[i].id != id,
    decreases s.len(),
{
    if s.len() > 0 {
        assert(drawn_from(s.drop_last(), pool)) by {
            assert forall|i: int| 0 <= i < s.drop_last().len() implies pool.contains(
                #[trigger] s.drop_last()[i],
            ) by {
                assert(s.drop_last()[i] == s[i]);
            }
        }
        lemma_without_id(s.drop_last(), id, pool);
        assert(pool.contains(s[s.len() - 1]));
    }
}

proof fn lemma_without_id_distinct(s: Seq<ActorView>, id: Seq<char>)
    requires
        ids_distinct(s),
    ensures
        ids_distinct(without_id(s, id)),
    decreases s.len(),
{
    if s.len() > 0 {
        let rest = s.drop_last();
        assert(ids_distinct(rest)) by {
            assert forall|i: int, j: int|
                0 <= i < rest.len() && 0 <= j < rest.len() && i != j implies rest[i].id
                != rest[j].id by {
                assert(rest[i] == s[i] && rest[j] == s[j]);
            }
        }
        lemma_without_id_distinct(rest, id);
        assert(drawn_from(rest, rest)) by {
            assert forall|i: int| 0 <= i < rest.len() implies rest.contains(#[trigger] rest[i]) by {}
        }
        lemma_without_id(rest, id, rest);
        let w = without_id(rest, id);
        if s.last().id != id {
            assert(without_id(s, id) == w.push(s.last()));
            assert forall|i: int, j: int|
                0 <= i < w.len() + 1 && 0 <= j < w.len() + 1 && i != j implies w.push(
                s.last(),
            )[i].id != w.push(s.last())[j].id by {
                if i == w.len() {
                    assert(rest.contains(w[j]));
                    let q = choose|q: int| 0 <= q < rest.len() && rest[q] == w[j];
                    assert(rest[q] == s[q]);
                } else if j == w.len() {
                    assert(rest.contains(w[i]));
                    let q = choose|q: int| 0 <= q < rest.len() && rest[q] == w[i];
                    assert(rest[q] == s[q]);
                } else {
                    assert(w.push(s.last())[i] == w[i] && w.push(s.last())[j] == w[j]);
                }
            }
        }
    }
}

/// What every moderated line-up is, whatever was picked: drawn from the actors,
/// at most `max` long, the moderator only first and only where it speaks, and
/// no actor twice where the pick names none twice.
pub proof fn lemma_line_up(
    m: ActorView,
    speaks: bool,
    picked: Seq<ActorView>,
    max: usize,
    av: Seq<ActorView>,
)
    requires
        av.contains(m),
        drawn_from(picked, av),
    ensures
        drawn_from(line_up_spec(m, speaks, picked, max), av),
        line_up_spec(m, speaks, picked, max).len() <= max,
        forall|i: int|
            0 <= i < line_up_spec(m, speaks, picked, max).len() && #[trigger] line_up_spec(
                m,
                speaks,
                picked,
                max,
            )[i].id == m.id ==> i == 0 && speaks,
        speaks && max >= 1 ==> line_up_spec(m, speaks, picked, max).len() >= 1 && line_up_spec(
            m,
            speaks,
            picked,
            max,
        )[0] == m,
        ids_distinct(picked) ==> ids_distinct(line_up_spec(m, speaks, picked, max)),
{
    let head = if speaks {
        seq![m]
    } else {
        Seq::<ActorView>::empty()
    };
    let ex = without_id(picked, m.id);
    lemma_without_id(picked, m.id, av);
    let all = head + ex;
    let r = line_up_spec(m, speaks, picked, max);
    assert forall|i: int| 0 <= i < r.len() implies r[i] == all[i] by {}
    assert forall|i: int| 0 <= i < all.len() && #[trigger] all[i].id == m.id implies i == 0 && speaks by {
        if i >= head.len() {
            assert(all[i] == ex[i - head.len()]);
        }
    }
    assert forall|i: int| 0 <= i < all.len() implies av.contains(#[trigger] all[i]) by {
        if i >= head.len() {
            assert(all[i] == ex[i - head.len()]);
        }
    }
    assert forall|i: int| 0 <= i < r.len() implies av.contains(#[trigger] r[i]) by {
        assert(r[i] == all[i]);
    }
    assert forall|i: int| 0 <= i < r.len() && #[trigger] r[i].id == m.id implies i == 0 && speaks by {
        assert(r[i] == all[i]);
    }
    if speaks && max >= 1 {
        assert(all[0] == m);
    }
    if ids_distinct(picked) {
        lemma_without_id_distinct(picked, m.id);
        assert forall|i: int, j: int|
            0 <= i < all.len() && 0 <= j < all.len() && i != j implies all[i].id != all[j].id by {
            if i >= head.len() && j >= head.len() {
                assert(all[i] == ex[i - head.len()]);
                assert(all[j] == ex[j - head.len()]);
            } else if i >= head.len() {
                assert(all[i] == ex[i - head.len()]);
            } else if j >= head.len() {
                assert(all[j] == ex[j - head.len()]);
            }
        }
        assert forall|i: int, j: int|
            0 <= i < r.len() && 0 <= j < r.len() && i != j implies r[i].id != r[j].id by {
            assert(r[i] == all[i] && r[j] == all[j]);
        }
    }
}

/// Where every actor has an eagerness of at least 1, every actor has a
/// positive weight, whatever the transcript: then a round of a non-empty cast,
/// algorithmic or moderated, has at least one speaker.
pub proof fn lemma_eager_actors_weigh(actors: Seq<ActorView>, ts: Seq<ChatTurnView>)
    requires
        forall|i: int| 0 <= i < actors.len() ==> #[trigger] actors[i].eagerness >= 1,
    ensures
        forall|i: int| 0 <= i < actors.len() ==> base_weight(#[trigger] actors[i], ts) > 0,
{
    assert forall|i: int| 0 <= i < actors.len() implies base_weight(#[trigger] actors[i], ts) > 0 by {
        assert(actors[i].eagerness >= 1);
    }
}

proof fn lemma_pick_scan_drawn(tokens: Seq<Seq<char>>, actors: Seq<ActorView>, max: nat)
    ensures
        drawn_from(pick_scan(tokens, actors, max).0, actors),
    decreases tokens.len(),
{
    if tokens.len() > 0 {
        lemma_pick_scan_drawn(tokens.drop_last(), actors, max);
        lemma_first_named_bounds(actors, trim(without_chars(tokens.last(), quote_marks())));
        let prev = pick_scan(tokens.drop_last(), actors, max).0;
        assert forall|i: int| 0 <= i < pick_scan(tokens, actors, max).0.len() implies actors.contains(
            #[trigger] pick_scan(tokens, actors, max).0[i],
        ) by {
            if i < prev.len() {
                assert(actors.contains(prev[i]));
            }
        }
    }
}

impl ModeratorDirector {
    /// Appends the actors of `picked` other than the moderator.
    fn append_without_moderator(
        &self,
        result: &mut Vec<Actor>,
        picked: &Vec<Actor>,
        em: usize,
        Ghost(head): Ghost<Seq<ActorView>>,
    )
        requires
            actor_views(old(result)@) == head,
        ensures
            actor_views(final(result)@) == head + without_id(
                actor_views(picked@),
                self.moderator_id@,
            ),
    {
        let ghost pv = actor_views(picked@);
        let mut i: usize = 0;
        while i < picked.len()
            invariant
                i <= picked@.len(),
                pv == actor_views(picked@),
                actor_views(result@) == head + without_id(pv.take(i as int), self.moderator_id@),
            decreases picked@.len() - i,
        {
            proof {
                assert(pv.take(i + 1).drop_last() =~= pv.take(i as int));
                assert(pv.take(i + 1).last() == picked@[i as int]@);
            }
            if !str_eq(picked[i].id.as_str(), self.moderator_id.as_str()) {
                let a = picked[i].clone();
                proof {
                    lemma_actor_views_push(result@, a);
                }
                result.push(a);
            }
            i = i + 1;
        }
        assert(pv.take(picked@.len() as int) =~= pv);
    }

    /// The line-up from the actors picked besides the moderator (see
    /// `line_up_spec`): the moderator first where it speaks, then the picked
    /// actors other than the moderator, at most `max_speakers` in all.
    pub fn line_up_with(&self, moderator: &Actor, speaks: bool, picked: &Vec<Actor>) -> (r: Vec<Actor>)
        requires
            moderator@.id == self.moderator_id@,
        ensures
            actor_views(r@) == line_up_spec(
                moderator@,
                speaks,
                actor_views(picked@),
                self.max_speakers,
            ),
    {
        let mut result: Vec<Actor> = Vec::new();
        if speaks {
            let m = moderator.clone();
            proof {
                lemma_actor_views_push(result@, m);
            }
            result.push(m);
        }
        let ghost head = actor_views(result@);
        assert(head =~= if speaks {
            seq![moderator@]
        } else {
            Seq::<ActorView>::empty()
        });
        self.append_without_moderator(&mut result, picked, picked.len(), Ghost(head));
        let ghost all = actor_views(result@);
        result.truncate(self.max_speakers);
        proof {
            if all.len() > self.max_speakers {
                assert(actor_views(result@) =~= all.take(self.max_speakers as int));
            } else {
                assert(actor_views(result@) =~= all);
            }
        }
        result
    }
}

/// The director where one actor moderates: it speaks when `should_speak_spec`
/// says so and the model, prompted with `build_moderator_prompt`, names the
/// others; where the model fails, the others are drawn as `algorithmic_pick`
/// does.
pub struct ModeratorDirector {
    pub moderator_id: String,
    pub min_speakers: usize,
    pub max_speakers: usize,
    pub model: String,
}

impl ModeratorDirector {
    pub fn new(moderator_id: String, model: String, min_speakers: usize, max_speakers: usize) -> (r:
        Self)
        ensures
            r.moderator_id@ == moderator_id@,
            r.model@ == model@,
            r.min_speakers == min_speakers,
            r.max_speakers == max_speakers,
    {
        ModeratorDirector { moderator_id, min_speakers, max_speakers, model }
    }

    /// The actor that must take part: the moderator.
    pub fn required_actor(&self) -> (r: Option<&str>)
        ensures
            r matches Some(s) && s@ == self.moderator_id@,
    {
        Some(self.moderator_id.as_str())
    }

    /// The prompt for the model, where a round needs one: `None` where the
    /// moderator is not among the actors or may invite nobody.
    pub fn moderator_prompt(&self, ctx: &TurnContext) -> (r: Option<String>)
        requires
            ctx.transcript@.len() <= u32::MAX,
        ensures
            match first_with_id(actor_views(ctx.actors@), self.moderator_id@) {
                None => r is None,
                Some(k) => {
                    let speaks = should_speak_spec(ctx.turns(), self.moderator_id@);
                    let em = extras_max(self.max_speakers, speaks);
                    if em == 0 {
                        r is None
                    } else {
                        r matches Some(p) && p@ == moderator_prompt_spec(
                            ctx.actors@[k]@,
                            actor_views(ctx.actors@),
                            ctx.turns(),
                            extras_min(speaks),
                            em,
                        )
                    }
                },
            },
    {
        match find_actor(ctx.actors, self.moderator_id.as_str()) {
            None => None,
            Some(k) => {
                proof {
                    lemma_first_with_id_bounds(actor_views(ctx.actors@), self.moderator_id@);
                }
                let moderator = &ctx.actors[k];
                let speaks = should_moderator_speak(ctx, moderator);
                let em: usize = if speaks {
                    if self.max_speakers >= 1 {
                        self.max_speakers - 1
                    } else {
                        0
                    }
                } else {
                    self.max_speakers
                };
                let emin: usize = if speaks {
                    0
                } else {
                    1
                };
                if em == 0 {
                    None
                } else {
                    Some(build_moderator_prompt(moderator, ctx, emin, em))
                }
            },
        }
    }

    /// The speakers of the next round, given the model's reply to
    /// `moderator_prompt` (`None` where the call failed or was not made).
    /// Where the moderator is not among the actors, the round is drawn as
    /// `algorithmic_pick` does. Otherwise the round is the moderated line-up
    /// (`line_up_with`) of the actors the reply names or, where the call failed,
    /// of those drawn in its place; where that line-up comes out empty, one to
    /// `max_speakers` actors are drawn afresh (`moderated_round`).
    pub fn pick_next_speakers(&self, ctx: &TurnContext, reply: Option<&str>) -> (r: Vec<Actor>)
        requires
            ctx.transcript@.len() <= u32::MAX,
            ctx.actors@.len() == 0 || self.max_speakers >= 1,
        ensures
            r@.len() <= self.max_speakers,
            drawn_from(actor_views(r@), actor_views(ctx.actors@)),
            ids_distinct(actor_views(ctx.actors@)) ==> ids_distinct(actor_views(r@)),
            ctx.actors@.len() > 0 && (forall|i: int|
                0 <= i < ctx.actors@.len() ==> base_weight(#[trigger] ctx.actors@[i]@, ctx.turns())
                    > 0) ==> r@.len() >= 1,
            match first_with_id(actor_views(ctx.actors@), self.moderator_id@) {
                None => is_selection(actor_views(ctx.actors@), r@.len(), actor_views(r@)),
                Some(k) => {
                    let speaks = should_speak_spec(ctx.turns(), self.moderator_id@);
                    let m = ctx.actors@[k]@;
                    let av = actor_views(ctx.actors@);
                    &&& speaks ==> r@.len() >= 1 && r@[0]@ == m
                    &&& (forall|i: int|
                        0 <= i < r@.len() && #[trigger] r@[i]@.id == self.moderator_id@ ==> i == 0
                            && speaks) || (!speaks && is_selection(av, r@.len(), actor_views(r@)))
                    &&& match reply {
                        Some(c) => moderated_round(
                            actor_views(r@),
                            av,
                            moderated_picks(m, av, ctx.turns(), self.max_speakers, c@),
                        ),
                        None => exists|p: Seq<ActorView>|
                            #[trigger] is_selection(av, p.len(), p) && p.len() <= extras_max(
                                self.max_speakers,
                                speaks,
                            ) && moderated_round(
                                actor_views(r@),
                                av,
                                line_up_spec(m, speaks, p, self.max_speakers),
                            ),
                    }
                },
            },
    {
        let ghost av = actor_views(ctx.actors@);
        let k = match find_actor(ctx.actors, self.moderator_id.as_str()) {
            None => {
                let r = algorithmic_pick(ctx, self.min_speakers, self.max_speakers);
                proof {
                    lemma_selection_drawn_from(av, actor_views(r@));
                    if ids_distinct(av) {
                        lemma_selection_distinct(av, r@.len() as nat, actor_views(r@));
                    }
                }
                return r;
            },
            Some(k) => k,
        };
        proof {
            lemma_first_with_id_bounds(av, self.moderator_id@);
        }
        let moderator = &ctx.actors[k];
        let speaks = should_moderator_speak(ctx, moderator);
        let em: usize = if speaks {
            if self.max_speakers >= 1 {
                self.max_speakers - 1
            } else {
                0
            }
        } else {
            self.max_speakers
        };
        let emin: usize = if speaks {
            0
        } else {
            1
        };
        let picked: Vec<Actor> = if em > 0 {
            match reply {
                Some(c) => {
                    let p = parse_moderator_response(c, ctx.actors, em);
                    proof {
                        lemma_parsed_picks(c@, av, em as nat);
                    }
                    p
                },
                None => {
                    let lower = if emin > 1 {
                        emin
                    } else {
                        1
                    };
                    let p = algorithmic_pick(ctx, lower, em);
                    proof {
                        lemma_selection_drawn_from(av, actor_views(p@));
                        if ids_distinct(av) {
                            lemma_selection_distinct(av, p@.len() as nat, actor_views(p@));
                        }
                    }
                    p
                },
            }
        } else {
            Vec::new()
        };
        let ghost pv = actor_views(picked@);
        proof {
            if picked@.len() == 0 {
                let e: Seq<usize> = Seq::empty();
                assert(e.no_duplicates());
                assert(pv =~= Seq::<ActorView>::empty());
                assert(picks_at(av, pv, e));
            }
            assert(av[k as int] == moderator@);
            assert(av.contains(moderator@));
            lemma_line_up(moderator@, speaks, pv, self.max_speakers, av);
            assert(em as nat == extras_max(self.max_speakers, speaks));
            match reply {
                Some(c) => {
                    assert(line_up_spec(moderator@, speaks, pv, self.max_speakers)
                        == moderated_picks(moderator@, av, ctx.turns(), self.max_speakers, c@));
                },
                None => {
                    assert(is_selection(av, pv.len(), pv));
                },
            }
        }
        let result = self.line_up_with(moderator, speaks, &picked);
        let ghost line = line_up_spec(moderator@, speaks, pv, self.max_speakers);
        if result.len() == 0 {
            let r = algorithmic_pick(ctx, 1, self.max_speakers);
            proof {
                lemma_selection_drawn_from(av, actor_views(r@));
                if ids_distinct(av) {
                    lemma_selection_distinct(av, r@.len() as nat, actor_views(r@));
                }
                assert(line.len() == 0);
                assert(!speaks);
                match reply {
                    Some(c) => {},
                    None => {
                        assert(is_selection(av, pv.len(), pv) && pv.len() <= extras_max(
                            self.max_speakers,
                            speaks,
                        ) && moderated_round(actor_views(r@), av, line_up_spec(moderator@, speaks, pv, self.max_speakers)));
                    },
                }
            }
            return r;
        }
        proof {
            assert(actor_views(result@) == line);
            assert forall|i: int|
                0 <= i < result@.len() && #[trigger] result@[i]@.id == self.moderator_id@ implies i == 0
                    && speaks by {
                assert(line[i] == result@[i]@);
            }
            if speaks {
                assert(line[0] == result@[0]@);
            }
            match reply {
                Some(c) => {},
                None => {
                    assert(is_selection(av, pv.len(), pv) && pv.len() <= extras_max(
                        self.max_speakers,
                        speaks,
                    ) && moderated_round(actor_views(result@), av, line));
                },
            }
        }
        result
    }
}

// ── laws of reading the moderator's reply ───────────────────────────────────

proof fn lemma_pick_scan_count(tokens: Seq<Seq<char>>, actors: Seq<ActorView>, max: nat)
    ensures
        ids_distinct(pick_scan(tokens, actors, max).0),
        max >= 1 ==> pick_scan(tokens, actors, max).0.len() <= max,
        max >= 1 && !pick_scan(tokens, actors, max).1 ==> pick_scan(tokens, actors, max).0.len() < max,
    decreases tokens.len(),
{
    if tokens.len() > 0 {
        lemma_pick_scan_count(tokens.drop_last(), actors, max);
        let t = trim(without_chars(tokens.last(), quote_marks()));
        lemma_first_named_bounds(actors, t);
        let (prev, done) = pick_scan(tokens.drop_last(), actors, max);
        if !done && t.len() > 0 {
            if let Some(k) = first_named(actors, t) {
                if !has_id(prev, actors[k].id) {
                    let next = prev.push(actors[k]);
                    assert forall|i: int, j: int|
                        0 <= i < next.len() && 0 <= j < next.len() && i != j implies next[i].id
                        != next[j].id by {
                        if i == prev.len() {
                            assert(next[j] == prev[j]);
                        } else if j == prev.len() {
                            assert(next[i] == prev[i]);
                        } else {
                            assert(next[i] == prev[i] && next[j] == prev[j]);
                        }
                    }
                }
            }
        }
    }
}

/// The actors read from a moderator's reply are actors of the session, each
/// named at most once, and no more than `max` of them.
pub proof fn lemma_parsed_picks(raw: Seq<char>, actors: Seq<ActorView>, max: nat)
    ensures
        drawn_from(parsed_picks(raw, actors, max), actors),
        ids_distinct(parsed_picks(raw, actors, max)),
        max >= 1 ==> parsed_picks(raw, actors, max).len() <= max,
{
    let tokens = keep_trimmed(split_pieces(trim(raw), name_separators()));
    lemma_pick_scan_drawn(tokens, actors, max);
    lemma_pick_scan_count(tokens, actors, max);
}

proof fn lemma_pick_scan_covers(tokens: Seq<Seq<char>>, actors: Seq<ActorView>, max: nat)
    ensures
        pick_scan(tokens, actors, max).1 ==> pick_scan(tokens, actors, max).0.len() >= max,
        forall|j: int|
            0 <= j < tokens.len() && token_name(#[trigger] tokens[j]).len() > 0 && first_named(
                actors,
                token_name(tokens[j]),
            ) is Some ==> pick_scan(tokens, actors, max).1 || has_id(
                pick_scan(tokens, actors, max).0,
                actors[first_named(actors, token_name(tokens[j]))->0].id,
            ),
    decreases tokens.len(),
{
    if tokens.len() > 0 {
        let rest = tokens.drop_last();
        lemma_pick_scan_covers(rest, actors, max);
        let prev = pick_scan(rest, actors, max);
        let next = pick_scan(tokens, actors, max);
        assert forall|id: Seq<char>| has_id(prev.0, id) implies has_id(next.0, id) by {
            let i = choose|i: int| 0 <= i < prev.0.len() && prev.0[i].id == id;
            if next.0 != prev.0 {
                assert(next.0[i] == prev.0[i]);
            }
        }
        assert forall|j: int|
            0 <= j < tokens.len() && token_name(#[trigger] tokens[j]).len() > 0 && first_named(
                actors,
                token_name(tokens[j]),
            ) is Some implies next.1 || has_id(
                next.0,
                actors[first_named(actors, token_name(tokens[j]))->0].id,
            ) by {
            let k = first_named(actors, token_name(tokens[j]))->0;
            if j < rest.len() {
                assert(rest[j] == tokens[j]);
                if !prev.1 {
                    assert(has_id(prev.0, actors[k].id));
                }
            } else if !prev.1 {
                if !has_id(prev.0, actors[k].id) {
                    assert(next.0 == prev.0.push(actors[k]));
                    assert(next.0[prev.0.len() as int] == actors[k]);
                }
            }
        }
    }
}

/// A reply picks every actor it names, by name or by id, unless `max` actors
/// were picked before: for each token that names an actor (see
/// `first_named`), the picks hold an actor with that id, or there are already
/// `max` of them.
pub proof fn lemma_parsed_picks_cover(raw: Seq<char>, actors: Seq<ActorView>, max: nat)
    ensures
        forall|j: int|
            #![trigger keep_trimmed(split_pieces(trim(raw), name_separators()))[j]]
            0 <= j < keep_trimmed(split_pieces(trim(raw), name_separators())).len() && token_name(
                keep_trimmed(split_pieces(trim(raw), name_separators()))[j],
            ).len() > 0 && first_named(
                actors,
                token_name(keep_trimmed(split_pieces(trim(raw), name_separators()))[j]),
            ) is Some ==> parsed_picks(raw, actors, max).len() >= max || has_id(
                parsed_picks(raw, actors, max),
                actors[first_named(
                    actors,
                    token_name(keep_trimmed(split_pieces(trim(raw), name_separators()))[j]),
                )->0].id,
            ),
{
    lemma_pick_scan_covers(keep_trimmed(split_pieces(trim(raw), name_separators())), actors, max);
}

/// The name a token of a moderator reply gives: brackets and quote marks
/// removed, trimmed.
pub open spec fn token_name(t: Seq<char>) -> Seq<char> {
    trim(without_chars(t, quote_marks()))
}

/// Some token names the actor: the first actor whose name or id the token
/// gives is that actor.
pub open spec fn named_by(tokens: Seq<Seq<char>>, actors: Seq<ActorView>, a: ActorView) -> bool {
    exists|j: int|
        0 <= j < tokens.len() && (first_named(actors, token_name(#[trigger] tokens[j])) matches Some(k)
            && actors[k] == a)
}

proof fn lemma_pick_scan_named(tokens: Seq<Seq<char>>, actors: Seq<ActorView>, max: nat)
    ensures
        forall|i: int|
            0 <= i < pick_scan(tokens, actors, max).0.len() ==> named_by(
                tokens,
                actors,
                #[trigger] pick_scan(tokens, actors, max).0[i],
            ),
    decreases tokens.len(),
{
    if tokens.len() > 0 {
        let rest = tokens.drop_last();
        lemma_pick_scan_named(rest, actors, max);
        let prev = pick_scan(rest, actors, max).0;
        let now = pick_scan(tokens, actors, max).0;
        assert forall|i: int| 0 <= i < now.len() implies named_by(tokens, actors, #[trigger] now[i]) by {
            if i < prev.len() {
                assert(now[i] == prev[i]);
                assert(named_by(rest, actors, prev[i]));
                let j = choose|j: int|
                    0 <= j < rest.len() && (first_named(actors, token_name(#[trigger] rest[j])) matches Some(
                        k,
                    ) && actors[k] == prev[i]);
                assert(rest[j] == tokens[j]);
            } else {
                let j = tokens.len() - 1;
                assert(tokens[j] == tokens.last());
            }
        }
    }
}

/// Every actor read from a moderator's reply is named there: by a token that,
/// without brackets and quote marks and trimmed, is the name or the id of that
/// actor (the first such actor); tokens that name nobody are skipped.
pub proof fn lemma_parsed_picks_named(raw: Seq<char>, actors: Seq<ActorView>, max: nat)
    ensures
        forall|i: int|
            0 <= i < parsed_picks(raw, actors, max).len() ==> named_by(
                keep_trimmed(split_pieces(trim(raw), name_separators())),
                actors,
                #[trigger] parsed_picks(raw, actors, max)[i],
            ),
{
    lemma_pick_scan_named(keep_trimmed(split_pieces(trim(raw), name_separators())), actors, max);
}

} // verus!

//! The actors (the characters of a discussion) and their validation.

use vstd::prelude::*;
use crate::text::{decimal, push_decimal, string_views, unit_result_view};

verus! {

/// A character of the discussion.
#[derive(Debug)]
pub struct Actor {
    pub id: String,
    pub name: String,
    pub avatar: String,
    pub short_bio: String,
    pub personality_traits: Vec<String>,
    pub speech_style: String,
    /// The angle this actor argues from; empty for none.
    pub discussion_lens: String,
    /// Affinity 1–12 (anchors: 3 emotional, 6 logical, 9 formal authority,
    /// 10–12 charisma).
    pub affinity: u8,
    /// Eagerness to speak 1–10; the higher, the more often the actor speaks.
    pub eagerness: u8,
}

/// An actor as plain values.
pub struct ActorView {
    pub id: Seq<char>,
    pub name: Seq<char>,
    pub avatar: Seq<char>,
    pub short_bio: Seq<char>,
    pub personality_traits: Seq<Seq<char>>,
    pub speech_style: Seq<char>,
    pub discussion_lens: Seq<char>,
    pub affinity: u8,
    pub eagerness: u8,
}

impl View for Actor {
    type V = ActorView;

    open spec fn view(&self) -> ActorView {
        ActorView {
            id: self.id@,
            name: self.name@,
            avatar: self.avatar@,
            short_bio: self.short_bio@,
            personality_traits: string_views(self.personality_traits@),
            speech_style: self.speech_style@,
            discussion_lens: self.discussion_lens@,
            affinity: self.affinity,
            eagerness: self.eagerness,
        }
    }
}

pub open spec fn actor_views(v: Seq<Actor>) -> Seq<ActorView> {
    v.map_values(|a: Actor| a@)
}

pub proof fn lemma_actor_views_push(v: Seq<Actor>, a: Actor)
    ensures
        actor_views(v.push(a)) == actor_views(v).push(a@),
{
    assert(actor_views(v.push(a)) =~= actor_views(v).push(a@));
}

impl Clone for Actor {
    fn clone(&self) -> (r: Self)
        ensures
            r@ == self@,
    {
        let traits = self.personality_traits.clone();
        assert(traits@ =~= self.personality_traits@);
        Actor {
            id: self.id.clone(),
            name: self.name.clone(),
            avatar: self.avatar.clone(),
            short_bio: self.short_bio.clone(),
            personality_traits: traits,
            speech_style: self.speech_style.clone(),
            discussion_lens: self.discussion_lens.clone(),
            affinity: self.affinity,
            eagerness: self.eagerness,
        }
    }
}

/// The eagerness an actor gets when its file names none.
pub fn default_eagerness() -> (r: u8)
    ensures
        r == 5,
{
    5
}

pub open spec fn affinity_in_range(a: u8) -> bool {
    1 <= a <= 12
}

pub open spec fn eagerness_in_range(e: u8) -> bool {
    1 <= e <= 10
}

/// The message for an actor whose affinity is out of range.
pub open spec fn actor_affinity_error(id: Seq<char>, affinity: u8) -> Seq<char> {
    "演員 '"@ + id + "' 的 affinity="@ + decimal(affinity as nat) + " 不在有效範圍 [1, 12]"@
}

/// The message for an actor whose eagerness is out of range.
pub open spec fn actor_eagerness_error(id: Seq<char>, eagerness: u8) -> Seq<char> {
    "演員 '"@ + id + "' 的 eagerness="@ + decimal(eagerness as nat) + " 不在有效範圍 [1, 10]"@
}

/// What validation says of an actor: the first range that is broken, with its
/// message.
pub open spec fn actor_check(a: ActorView) -> Result<(), Seq<char>> {
    if !affinity_in_range(a.affinity) {
        Err(actor_affinity_error(a.id, a.affinity))
    } else if !eagerness_in_range(a.eagerness) {
        Err(actor_eagerness_error(a.id, a.eagerness))
    } else {
        Ok(())
    }
}

impl Actor {
    /// Checks that affinity lies in 1..=12 and eagerness in 1..=10, in that order.
    pub fn validate(&self) -> (r: Result<(), String>)
        ensures
            unit_result_view(r) == actor_check(self@),
    {
        if self.affinity < 1 || self.affinity > 12 {
            let mut m = "演員 '".to_owned();
            m.push_str(self.id.as_str());
            m.push_str("' 的 affinity=");
            push_decimal(&mut m, self.affinity as u64);
            m.push_str(" 不在有效範圍 [1, 12]");
            return Err(m);
        }
        if self.eagerness < 1 || self.eagerness > 10 {
            let mut m = "演員 '".to_owned();
            m.push_str(self.id.as_str());
            m.push_str("' 的 eagerness=");
            push_decimal(&mut m, self.eagerness as u64);
            m.push_str(" 不在有效範圍 [1, 10]");
            return Err(m);
        }
        Ok(())
    }
}

/// The position of the first actor with the given id.
pub open spec fn first_with_id(s: Seq<ActorView>, id: Seq<char>) -> Option<int>
    decreases s.len(),
{
    if s.len() == 0 {
        None
    } else {
        match first_with_id(s.drop_last(), id) {
            Some(i) => Some(i),
            None => if s.last().id == id {
                Some(s.len() - 1)
            } else {
                None
            },
        }
    }
}

pub proof fn lemma_first_with_id_bounds(s: Seq<ActorView>, id: Seq<char>)
    ensures
        first_with_id(s, id) matches Some(i) ==> 0 <= i < s.len() && s[i].id == id,
        first_with_id(s, id) is None ==> forall|j: int| 0 <= j < s.len() ==> s[j].id != id,
    decreases s.len(),
{
    if s.len() > 0 {
        lemma_first_with_id_bounds(s.drop_last(), id);
        if first_with_id(s, id) is None {
            assert forall|j: int| 0 <= j < s.len() implies s[j].id != id by {
                if j < s.len() - 1 {
                    assert(s.drop_last()[j] == s[j]);
                }
            }
        }
    }
}

proof fn lemma_first_with_id_extends(s: Seq<ActorView>, id: Seq<char>, n: int)
    requires
        0 <= n <= s.len(),
        first_with_id(s.take(n), id) is Some,
    ensures
        first_with_id(s, id) == first_with_id(s.take(n), id),
    decreases s.len() - n,
{
    if n == s.len() {
        assert(s.take(n) =~= s);
    } else {
        assert(s.take(n + 1).drop_last() =~= s.take(n));
        lemma_first_with_id_extends(s, id, n + 1);
    }
}

/// The position of the first actor with the given id.
pub fn find_actor(actors: &[Actor], id: &str) -> (r: Option<usize>)
    ensures
        r matches Some(i) ==> first_with_id(actor_views(actors@), id@) == Some(i as int),
        r is None ==> first_with_id(actor_views(actors@), id@) is None,
        r matches Some(i) ==> i < actors@.len(),
{
    let ghost s = actor_views(actors@);
    let mut i: usize = 0;
    while i < actors.len()
        invariant
            i <= actors@.len(),
            s == actor_views(actors@),
            first_with_id(s.take(i as int), id@) is None,
        decreases actors@.len() - i,
    {
        proof {
            assert(s.take(i + 1).drop_last() =~= s.take(i as int));
        }
        if crate::text::str_eq(actors[i].id.as_str(), id) {
            proof {
                lemma_first_with_id_extends(s, id@, i + 1);
            }
            return Some(i);
        }
        i = i + 1;
    }
    assert(s.take(actors@.len() as int) =~= s);
    None
}

} // verus!

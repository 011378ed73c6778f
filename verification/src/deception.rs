//! Deception patterns (the ways a liar misleads) and the map from liars to
//! the pattern each one uses.

use vstd::prelude::*;
use crate::shared::Difficulty;
use crate::text::{decimal, push_decimal, unit_result_view, str_eq};

verus! {

/// A way of lying, with its teaching goal.
#[derive(Debug)]
pub struct DeceptionPattern {
    pub id: String,
    pub name_zh: String,
    pub description: String,
    pub example: String,
    pub difficulty: Difficulty,
    pub teaching_goal: String,
    /// Affinity 1–12: which actors the pattern is likely paired with.
    pub affinity: u8,
}

/// A deception pattern as plain values.
pub struct DeceptionPatternView {
    pub id: Seq<char>,
    pub name_zh: Seq<char>,
    pub description: Seq<char>,
    pub example: Seq<char>,
    pub difficulty: Difficulty,
    pub teaching_goal: Seq<char>,
    pub affinity: u8,
}

impl View for DeceptionPattern {
    type V = DeceptionPatternView;

    open spec fn view(&self) -> DeceptionPatternView {
        DeceptionPatternView {
            id: self.id@,
            name_zh: self.name_zh@,
            description: self.description@,
            example: self.example@,
            difficulty: self.difficulty,
            teaching_goal: self.teaching_goal@,
            affinity: self.affinity,
        }
    }
}

pub open spec fn pattern_views(v: Seq<DeceptionPattern>) -> Seq<DeceptionPatternView> {
    v.map_values(|p: DeceptionPattern| p@)
}

impl Clone for DeceptionPattern {
    fn clone(&self) -> (r: Self)
        ensures
            r@ == self@,
    {
        DeceptionPattern {
            id: self.id.clone(),
            name_zh: self.name_zh.clone(),
            description: self.description.clone(),
            example: self.example.clone(),
            difficulty: self.difficulty,
            teaching_goal: self.teaching_goal.clone(),
            affinity: self.affinity,
        }
    }
}

/// The message for a pattern whose affinity is out of range.
pub open spec fn pattern_affinity_error(id: Seq<char>, affinity: u8) -> Seq<char> {
    "騙術 '"@ + id + "' 的 affinity="@ + decimal(affinity as nat) + " 不在有效範圍 [1, 12]"@
}

/// What validation says of a pattern.
pub open spec fn pattern_check(p: DeceptionPatternView) -> Result<(), Seq<char>> {
    if !(1 <= p.affinity <= 12) {
        Err(pattern_affinity_error(p.id, p.affinity))
    } else {
        Ok(())
    }
}

impl DeceptionPattern {
    /// Checks that the affinity lies in 1..=12.
    pub fn validate(&self) -> (r: Result<(), String>)
        ensures
            unit_result_view(r) == pattern_check(self@),
    {
        if self.affinity < 1 || self.affinity > 12 {
            let mut m = "騙術 '".to_owned();
            m.push_str(self.id.as_str());
            m.push_str("' 的 affinity=");
            push_decimal(&mut m, self.affinity as u64);
            m.push_str(" 不在有效範圍 [1, 12]");
            return Err(m);
        }
        Ok(())
    }
}

// ── map from liar ids to patterns ───────────────────────────────────────────

/// The map that the entries give: later entries win.
pub open spec fn entries_map(e: Seq<(String, DeceptionPattern)>) -> Map<
    Seq<char>,
    DeceptionPatternView,
>
    decreases e.len(),
{
    if e.len() == 0 {
        Map::empty()
    } else {
        entries_map(e.drop_last()).insert(e.last().0@, e.last().1@)
    }
}

pub open spec fn keys_distinct(e: Seq<(String, DeceptionPattern)>) -> bool {
    forall|i: int, j: int| 0 <= i < j < e.len() ==> e[i].0@ != e[j].0@
}

proof fn lemma_entries_contains(e: Seq<(String, DeceptionPattern)>, k: Seq<char>)
    ensures
        entries_map(e).contains_key(k) <==> exists|i: int| 0 <= i < e.len() && e[i].0@ == k,
    decreases e.len(),
{
    if e.len() > 0 {
        lemma_entries_contains(e.drop_last(), k);
        if entries_map(e.drop_last()).contains_key(k) {
            let i = choose|i: int| 0 <= i < e.drop_last().len() && e.drop_last()[i].0@ == k;
            assert(e[i].0@ == k);
        }
        if exists|i: int| 0 <= i < e.len() && e[i].0@ == k {
            let i = choose|i: int| 0 <= i < e.len() && e[i].0@ == k;
            if i < e.len() - 1 {
                assert(e.drop_last()[i].0@ == k);
            }
        }
    }
}

proof fn lemma_entries_value(e: Seq<(String, DeceptionPattern)>, i: int)
    requires
        keys_distinct(e),
        0 <= i < e.len(),
    ensures
        entries_map(e)[e[i].0@] == e[i].1@,
    decreases e.len(),
{
    if i < e.len() - 1 {
        assert(keys_distinct(e.drop_last()));
        lemma_entries_value(e.drop_last(), i);
        assert(e.drop_last()[i] == e[i]);
    }
}

proof fn lemma_entries_finite(e: Seq<(String, DeceptionPattern)>)
    requires
        keys_distinct(e),
    ensures
        entries_map(e).dom().finite(),
        entries_map(e).dom().len() == e.len(),
    decreases e.len(),
{
    if e.len() > 0 {
        assert(keys_distinct(e.drop_last()));
        lemma_entries_finite(e.drop_last());
        lemma_entries_contains(e.drop_last(), e.last().0@);
        if entries_map(e.drop_last()).contains_key(e.last().0@) {
            let i = choose|i: int| 0 <= i < e.drop_last().len() && e.drop_last()[i].0@ == e.last().0@;
            assert(e[i].0@ == e[e.len() - 1].0@);
        }
    }
}

proof fn lemma_entries_push_fresh(e: Seq<(String, DeceptionPattern)>, k: String, v: DeceptionPattern)
    requires
        keys_distinct(e),
        !entries_map(e).contains_key(k@),
    ensures
        keys_distinct(e.push((k, v))),
        entries_map(e.push((k, v))) == entries_map(e).insert(k@, v@),
{
    lemma_entries_contains(e, k@);
    assert(e.push((k, v)).drop_last() =~= e);
    assert forall|i: int, j: int| 0 <= i < j < e.push((k, v)).len() implies e.push((k, v))[i].0@
        != e.push((k, v))[j].0@ by {
        if j == e.len() {
            assert(e[i].0@ != k@);
        }
    }
}

proof fn lemma_entries_update(
    e: Seq<(String, DeceptionPattern)>,
    idx: int,
    k: String,
    v: DeceptionPattern,
)
    requires
        keys_distinct(e),
        0 <= idx < e.len(),
        e[idx].0@ == k@,
    ensures
        keys_distinct(e.update(idx, (k, v))),
        entries_map(e.update(idx, (k, v))) == entries_map(e).insert(k@, v@),
    decreases e.len(),
{
    let e2 = e.update(idx, (k, v));
    assert(keys_distinct(e2));
    if idx == e.len() - 1 {
        assert(e2.drop_last() =~= e.drop_last());
        assert(entries_map(e2) =~= entries_map(e).insert(k@, v@));
    } else {
        assert(keys_distinct(e.drop_last()));
        lemma_entries_update(e.drop_last(), idx, k, v);
        assert(e2.drop_last() =~= e.drop_last().update(idx, (k, v)));
        assert(e.last().0@ != k@);
        assert(entries_map(e2) =~= entries_map(e).insert(k@, v@));
    }
}

/// Which deception pattern each liar uses, keyed by actor id.
#[derive(Debug)]
pub struct DeceptionMap {
    entries: Vec<(String, DeceptionPattern)>,
}

impl View for DeceptionMap {
    type V = Map<Seq<char>, DeceptionPatternView>;

    closed spec fn view(&self) -> Map<Seq<char>, DeceptionPatternView> {
        entries_map(self.entries@)
    }
}

impl DeceptionMap {
    #[verifier::type_invariant]
    closed spec fn wf(&self) -> bool {
        keys_distinct(self.entries@)
    }

    /// An empty map.
    pub fn new() -> (r: Self)
        ensures
            r@ == Map::<Seq<char>, DeceptionPatternView>::empty(),
    {
        DeceptionMap { entries: Vec::new() }
    }

    fn position(&self, key: &str) -> (r: Option<usize>)
        ensures
            match r {
                Some(i) => i < self.entries@.len() && self.entries@[i as int].0@ == key@,
                None => forall|i: int|
                    0 <= i < self.entries@.len() ==> self.entries@[i].0@ != key@,
            },
    {
        let mut i: usize = 0;
        while i < self.entries.len()
            invariant
                i <= self.entries@.len(),
                forall|j: int| 0 <= j < i ==> self.entries@[j].0@ != key@,
            decreases self.entries@.len() - i,
        {
            if str_eq(self.entries[i].0.as_str(), key) {
                return Some(i);
            }
            i = i + 1;
        }
        None
    }

    /// Sets the pattern of a key, replacing any it had.
    pub fn insert(&mut self, key: String, value: DeceptionPattern)
        ensures
            final(self)@ == old(self)@.insert(key@, value@),
    {
        proof {
            use_type_invariant(&*self);
        }
        let pos = self.position(key.as_str());
        match pos {
            Some(i) => {
                proof {
                    lemma_entries_update(self.entries@, i as int, key, value);
                }
                let mut entries: Vec<(String, DeceptionPattern)> = Vec::new();
                std::mem::swap(&mut entries, &mut self.entries);
                entries.set(i, (key, value));
                self.entries = entries;
            },
            None => {
                proof {
                    lemma_entries_contains(self.entries@, key@);
                    lemma_entries_push_fresh(self.entries@, key, value);
                }
                let mut entries: Vec<(String, DeceptionPattern)> = Vec::new();
                std::mem::swap(&mut entries, &mut self.entries);
                entries.push((key, value));
                self.entries = entries;
            },
        }
    }

    /// The pattern of a key, if it has one.
    pub fn get(&self, key: &str) -> (r: Option<&DeceptionPattern>)
        ensures
            match r {
                Some(p) => self@.contains_key(key@) && p@ == self@[key@],
                None => !self@.contains_key(key@),
            },
    {
        proof {
            use_type_invariant(self);
            lemma_entries_contains(self.entries@, key@);
        }
        match self.position(key) {
            Some(i) => {
                proof {
                    lemma_entries_value(self.entries@, i as int);
                }
                Some(&self.entries[i].1)
            },
            None => None,
        }
    }

    /// Whether the key has a pattern.
    pub fn contains_key(&self, key: &str) -> (r: bool)
        ensures
            r == self@.contains_key(key@),
    {
        match self.get(key) {
            Some(_) => true,
            None => false,
        }
    }

    /// The number of keys.
    pub fn len(&self) -> (r: usize)
        ensures
            self@.dom().finite(),
            r == self@.dom().len(),
    {
        proof {
            use_type_invariant(self);
            lemma_entries_finite(self.entries@);
        }
        self.entries.len()
    }
}

/// After a pattern is set for an id, reading that id gives it back; every
/// other id reads as before; the number of ids grows by one exactly where the
/// id had no pattern.
pub proof fn lemma_read_after_insert(
    m: Map<Seq<char>, DeceptionPatternView>,
    key: Seq<char>,
    value: DeceptionPatternView,
    other: Seq<char>,
)
    requires
        m.dom().finite(),
    ensures
        m.insert(key, value).contains_key(key),
        m.insert(key, value)[key] == value,
        other != key ==> (m.insert(key, value).contains_key(other) == m.contains_key(other)),
        other != key && m.contains_key(other) ==> m.insert(key, value)[other] == m[other],
        m.insert(key, value).dom().len() == if m.contains_key(key) {
            m.dom().len()
        } else {
            m.dom().len() + 1
        },
{
    if m.contains_key(key) {
        assert(m.insert(key, value).dom() =~= m.dom());
    } else {
        assert(m.insert(key, value).dom() =~= m.dom().insert(key));
    }
}

} // verus!

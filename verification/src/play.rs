//! The decisions of the command-line and web front ends: reading a player's
//! command, counting rounds, sizing a game, turning member numbers into an
//! accusation, picking a topic and checking that a model is installed.

use vstd::prelude::*;
use crate::actor::{Actor, ActorView, actor_views};
use crate::shared::Verdict;
use crate::text::{
    trim, trimmed, chars_of, string_of, decimal, push_decimal, string_views,
    lemma_string_views_push, str_eq,
};
use crate::chance::random_usize;

verus! {

/// The most rounds of questions in a command-line game.
pub const MAX_ROUNDS: u32 = 10;

// ── numbers ─────────────────────────────────────────────────────────────────

pub open spec fn is_digit(c: char) -> bool {
    '0' <= c && c <= '9'
}

pub open spec fn all_digits(s: Seq<char>) -> bool {
    forall|k: int| 0 <= k < s.len() ==> is_digit(#[trigger] s[k])
}

/// The value of a run of decimal digits.
pub open spec fn digits_value(s: Seq<char>) -> nat
    decreases s.len(),
{
    if s.len() == 0 {
        0
    } else {
        digits_value(s.drop_last()) * 10 + ((s.last() as int) - 48) as nat
    }
}

/// The digits of an unsigned number: without one leading `+`, where more follows.
pub open spec fn unsigned_digits(s: Seq<char>) -> Seq<char> {
    if s.len() > 1 && s[0] == '+' {
        s.drop_first()
    } else {
        s
    }
}

/// What `str::parse::<usize>` gives: the value of an optional `+` and one or
/// more ASCII digits, where it fits in a `usize`; nothing otherwise.
pub open spec fn parsed_usize(s: Seq<char>) -> Option<nat> {
    let d = unsigned_digits(s);
    if d.len() > 0 && all_digits(d) && digits_value(d) <= usize::MAX {
        Some(digits_value(d))
    } else {
        None
    }
}

proof fn lemma_digits_value_prefix(d: Seq<char>, k: int)
    requires
        all_digits(d),
        0 <= k <= d.len(),
    ensures
        digits_value(d.take(k)) <= digits_value(d),
    decreases d.len(),
{
    if k < d.len() {
        let p = d.drop_last();
        assert(p.take(k) =~= d.take(k));
        assert forall|j: int| 0 <= j < p.len() implies is_digit(#[trigger] p[j]) by {
            assert(p[j] == d[j]);
        }
        lemma_digits_value_prefix(p, k);
        assert(is_digit(d[d.len() - 1]));
    } else {
        assert(d.take(k) =~= d);
    }
}

/// A text read as an unsigned number (see `parsed_usize`).
pub fn parse_usize(s: &str) -> (r: Option<usize>)
    ensures
        match parsed_usize(s@) {
            Some(v) => r == Some(v as usize),
            None => r is None,
        },
{
    let v = chars_of(s);
    let start: usize = if v.len() > 1 && v[0] == '+' {
        1
    } else {
        0
    };
    let ghost d = unsigned_digits(s@);
    assert(d =~= v@.skip(start as int));
    if start == v.len() {
        return None;
    }
    let mut value: u128 = 0;
    let mut i: usize = start;
    while i < v.len()
        invariant
            start <= i <= v.len(),
            v@ == s@,
            d == v@.skip(start as int),
            d == unsigned_digits(s@),
            all_digits(d.take(i - start)),
            value == digits_value(d.take(i - start)),
            value <= usize::MAX,
        decreases v.len() - i,
    {
        let c = v[i];
        assert(d[i - start] == c);
        assert(d.take(i - start + 1).drop_last() =~= d.take(i - start));
        if c < '0' || c > '9' {
            assert(!all_digits(d)) by {
                assert(!is_digit(d[i - start]));
            }
            assert(parsed_usize(s@) is None);
            return None;
        }
        let digit = (c as u32 - 48) as u128;
        assert(digits_value(d.take(i - start + 1)) == digits_value(d.take(i - start)) * 10 + digit);
        value = value * 10 + digit;
        assert(all_digits(d.take(i - start + 1))) by {
            assert forall|k: int| 0 <= k < i - start + 1 implies is_digit(
                #[trigger] d.take(i - start + 1)[k],
            ) by {
                if k < i - start {
                    assert(d.take(i - start + 1)[k] == d.take(i - start)[k]);
                }
            }
        }
        if value > usize::MAX as u128 {
            proof {
                if all_digits(d) {
                    lemma_digits_value_prefix(d, i - start + 1);
                }
            }
            assert(parsed_usize(s@) is None);
            return None;
        }
        i = i + 1;
    }
    assert(d.take(i - start) =~= d);
    Some(value as usize)
}

// ── commands ────────────────────────────────────────────────────────────────

/// What a player typed at the prompt.
#[derive(Debug)]
pub enum Command {
    /// Nothing (white space only).
    Empty,
    /// `/quit`: leave the game.
    Quit,
    /// `/accuseN` with a valid member number `N` (from 1).
    Accuse(usize),
    /// `/accuse` without a valid member number.
    BadAccuse,
    /// Anything else: something said to the actors, trimmed.
    Say(String),
}

/// The member number after `/accuse`, where it is valid for `count` members.
pub open spec fn accuse_number(rest: Seq<char>, count: nat) -> Option<nat> {
    match parsed_usize(trim(rest)) {
        Some(v) => if 1 <= v <= count {
            Some(v)
        } else {
            None
        },
        None => None,
    }
}

/// How a line of input reads, for a game of `count` members.
pub open spec fn command_matches(r: Command, input: Seq<char>, count: nat) -> bool {
    let t = trim(input);
    if t.len() == 0 {
        r is Empty
    } else if t == "/quit"@ {
        r is Quit
    } else if t.len() >= 7 && t.take(7) == "/accuse"@ {
        match accuse_number(t.skip(7), count) {
            Some(n) => r == Command::Accuse(n as usize),
            None => r is BadAccuse,
        }
    } else {
        r matches Command::Say(s) && s@ == t
    }
}

/// Reads a line of input (see `command_matches`).
pub fn parse_command(input: &str, count: usize) -> (r: Command)
    ensures
        command_matches(r, input@, count as nat),
{
    let v = chars_of(input);
    let t = trimmed(&v, 0, v.len());
    proof {
        assert(v@.subrange(0, v@.len() as int) =~= v@);
    }
    let text = string_of(t.as_slice());
    if t.len() == 0 {
        return Command::Empty;
    }
    if str_eq(text.as_str(), "/quit") {
        return Command::Quit;
    }
    let prefix = chars_of("/accuse");
    if t.len() >= prefix.len() {
        let mut same = true;
        let mut k: usize = 0;
        while k < prefix.len()
            invariant
                k <= prefix@.len() <= t@.len(),
                prefix@ == "/accuse"@,
                same <==> forall|j: int| 0 <= j < k ==> t@[j] == prefix@[j],
            decreases prefix@.len() - k,
        {
            if t[k] != prefix[k] {
                same = false;
            }
            k = k + 1;
        }
        proof {
            reveal_strlit("/accuse");
            assert(prefix@.len() == 7);
            if same {
                assert(t@.take(7) =~= prefix@);
            } else {
                let j = choose|j: int| 0 <= j < 7 && t@[j] != prefix@[j];
                assert(t@.take(7)[j] != prefix@[j]);
            }
        }
        if same {
            let rt = trimmed(&t, 7, t.len());
            assert(t@.subrange(7, t@.len() as int) =~= t@.skip(7));
            let rts = string_of(rt.as_slice());
            return match parse_usize(rts.as_str()) {
                Some(n) => if 1 <= n && n <= count {
                    Command::Accuse(n)
                } else {
                    Command::BadAccuse
                },
                None => Command::BadAccuse,
            };
        }
    }
    proof {
        reveal_strlit("/accuse");
    }
    Command::Say(text)
}

/// What the command-line game does with a command.
#[derive(Debug)]
pub enum Turn {
    /// Ask again, nothing happened.
    Reprompt,
    /// The player left.
    Quit,
    /// The number is out of range: say so and ask again.
    BadAccuse,
    /// Ask for a reason and score the accusation of member `N` (from 1); the game ends.
    Verdict(usize),
    /// A round of discussion: the student's words, if any, go to the transcript
    /// and the actors answer.
    Discuss(Option<String>),
}

/// One step of the command-line game: from the round number and the command to
/// the next round number and what to do. Empty input continues the discussion
/// only where the actors may go on by themselves; a discussion step counts a
/// round.
pub fn cli_turn(round: u32, cmd: Command, auto_continue: bool) -> (r: (Turn, u32))
    requires
        round < MAX_ROUNDS,
    ensures
        match cmd {
            Command::Empty => if auto_continue {
                r.0 matches Turn::Discuss(None) && r.1 == round + 1
            } else {
                r.0 is Reprompt && r.1 == round
            },
            Command::Quit => r.0 is Quit && r.1 == round,
            Command::Accuse(n) => r.0 == Turn::Verdict(n) && r.1 == round,
            Command::BadAccuse => r.0 is BadAccuse && r.1 == round,
            Command::Say(s) => (r.0 matches Turn::Discuss(Some(t)) && t@ == s@) && r.1 == round + 1,
        },
{
    match cmd {
        Command::Empty => if auto_continue {
            (Turn::Discuss(None), round + 1)
        } else {
            (Turn::Reprompt, round)
        },
        Command::Quit => (Turn::Quit, round),
        Command::Accuse(n) => (Turn::Verdict(n), round),
        Command::BadAccuse => (Turn::BadAccuse, round),
        Command::Say(s) => (Turn::Discuss(Some(s)), round + 1),
    }
}

/// The message for a member number out of range.
pub fn bad_accuse_message(count: usize) -> (r: String)
    ensures
        r@ == "請輸入有效的成員編號（1 到 "@ + decimal(count as nat) + "）"@,
{
    let mut m = "請輸入有效的成員編號（1 到 ".to_owned();
    push_decimal(&mut m, count as u64);
    m.push_str("）");
    m
}

// ── the web game ────────────────────────────────────────────────────────────

/// The size of a web game: 2 to 5 actors (3 unless asked), and 1 to one fewer
/// than the actors liars (1 unless asked).
pub open spec fn game_size_spec(actors: Option<usize>, liars: Option<usize>) -> (nat, nat) {
    let a0: nat = match actors {
        Some(a) => a as nat,
        None => 3,
    };
    let a: nat = if a0 > 5 {
        5
    } else if a0 < 2 {
        2
    } else {
        a0
    };
    let l0: nat = match liars {
        Some(l) => l as nat,
        None => 1,
    };
    let l: nat = if l0 > a - 1 {
        (a - 1) as nat
    } else if l0 < 1 {
        1
    } else {
        l0
    };
    (a, l)
}

/// The number of actors and of liars of a web game (see `game_size_spec`).
pub fn game_size(actors: Option<usize>, liars: Option<usize>) -> (r: (usize, usize))
    ensures
        (r.0 as nat, r.1 as nat) == game_size_spec(actors, liars),
        2 <= r.0 <= 5,
        1 <= r.1 < r.0,
{
    let a0 = match actors {
        Some(a) => a,
        None => 3,
    };
    let a = if a0 > 5 {
        5
    } else if a0 < 2 {
        2
    } else {
        a0
    };
    let l0 = match liars {
        Some(l) => l,
        None => 1,
    };
    let l = if l0 > a - 1 {
        a - 1
    } else if l0 < 1 {
        1
    } else {
        l0
    };
    (a, l)
}

/// Why an accusation by member numbers is refused.
#[derive(Debug, Clone, Copy, PartialEq, Eq, Structural)]
pub enum AccuseError {
    /// No member was named.
    NoOneAccused,
    /// A member number out of range (numbers start at 1).
    InvalidIndex(usize),
}

impl AccuseError {
    /// The message shown for this error.
    pub fn message(&self) -> (r: String)
        ensures
            r@ == match *self {
                AccuseError::NoOneAccused => "請至少指控一位成員"@,
                AccuseError::InvalidIndex(i) => "無效的成員編號："@ + decimal(i as nat),
            },
    {
        match self {
            AccuseError::NoOneAccused => "請至少指控一位成員".to_owned(),
            AccuseError::InvalidIndex(i) => {
                let mut m = "無效的成員編號：".to_owned();
                push_decimal(&mut m, *i as u64);
                m
            },
        }
    }
}

/// The first member number that is out of range for `count` members.
pub open spec fn first_invalid(indices: Seq<usize>, count: nat) -> Option<int>
    decreases indices.len(),
{
    if indices.len() == 0 {
        None
    } else {
        match first_invalid(indices.drop_last(), count) {
            Some(i) => Some(i),
            None => if indices.last() < 1 || indices.last() > count {
                Some(indices.len() - 1)
            } else {
                None
            },
        }
    }
}

/// The ids of the members with the given numbers (from 1).
pub open spec fn ids_at(actors: Seq<ActorView>, indices: Seq<usize>) -> Seq<Seq<char>> {
    indices.map_values(|i: usize| actors[i - 1].id)
}

proof fn lemma_first_invalid_prefix(indices: Seq<usize>, count: nat, n: int)
    requires
        0 <= n <= indices.len(),
        first_invalid(indices.take(n), count) is Some,
    ensures
        first_invalid(indices, count) == first_invalid(indices.take(n), count),
    decreases indices.len() - n,
{
    if n == indices.len() {
        assert(indices.take(n) =~= indices);
    } else {
        assert(indices.take(n + 1).drop_last() =~= indices.take(n));
        lemma_first_invalid_prefix(indices, count, n + 1);
    }
}

/// The accused ids of a web accusation: refused where no member is named, and
/// at the first number out of range.
pub fn accused_from_indices(actors: &[Actor], indices: &[usize]) -> (r: Result<Vec<String>, AccuseError>)
    ensures
        indices@.len() == 0 ==> r == Err::<Vec<String>, AccuseError>(AccuseError::NoOneAccused),
        indices@.len() > 0 ==> match first_invalid(indices@, actors@.len()) {
            Some(k) => r == Err::<Vec<String>, AccuseError>(AccuseError::InvalidIndex(indices@[k])),
            None => r matches Ok(ids) && string_views(ids@) == ids_at(
                actor_views(actors@),
                indices@,
            ),
        },
{
    if indices.len() == 0 {
        return Err(AccuseError::NoOneAccused);
    }
    let ghost av = actor_views(actors@);
    let mut ids: Vec<String> = Vec::new();
    let mut j: usize = 0;
    while j < indices.len()
        invariant
            j <= indices@.len(),
            av == actor_views(actors@),
            first_invalid(indices@.take(j as int), actors@.len()) is None,
            string_views(ids@) == ids_at(av, indices@.take(j as int)),
        decreases indices@.len() - j,
    {
        let idx = indices[j];
        proof {
            assert(indices@.take(j + 1).drop_last() =~= indices@.take(j as int));
            assert(indices@.take(j + 1).last() == idx);
        }
        if idx < 1 || idx > actors.len() {
            proof {
                assert(first_invalid(indices@.take(j + 1), actors@.len()) == Some(j as int));
                lemma_first_invalid_prefix(indices@, actors@.len(), j + 1);
            }
            return Err(AccuseError::InvalidIndex(idx));
        }
        let id = actors[idx - 1].id.clone();
        proof {
            lemma_string_views_push(ids@, id);
            assert(ids_at(av, indices@.take(j + 1)) =~= ids_at(av, indices@.take(j as int)).push(
                av[idx - 1].id,
            ));
        }
        ids.push(id);
        j = j + 1;
    }
    assert(indices@.take(indices@.len() as int) =~= indices@);
    Ok(ids)
}

/// The name of a verdict in the web game's answers.
pub fn verdict_name(v: Verdict) -> (r: &'static str)
    ensures
        r@ == match v {
            Verdict::Green => "green"@,
            Verdict::Yellow => "yellow"@,
            Verdict::Red => "red"@,
        },
{
    match v {
        Verdict::Green => "green",
        Verdict::Yellow => "yellow",
        Verdict::Red => "red",
    }
}

/// The topic of a new game: an index drawn from a random number, below `count`.
pub fn pick_topic_index(count: usize) -> (r: usize)
    requires
        count > 0,
    ensures
        r < count,
{
    topic_index_from(random_usize(), count)
}

/// The topic index that a random number gives: the number modulo the count.
pub fn topic_index_from(draw: usize, count: usize) -> (r: usize)
    requires
        count > 0,
    ensures
        r == draw % count,
{
    draw % count
}

// ── the environment check ───────────────────────────────────────────────────

/// A listed model is the one asked for: the same name, or the name followed by
/// `:` and a tag.
pub open spec fn names_model(listed: Seq<char>, model: Seq<char>) -> bool {
    listed == model || (listed.len() > model.len() && listed.take(model.len() as int) == model
        && listed[model.len() as int] == ':')
}

fn is_model_name(listed: &str, model: &str) -> (r: bool)
    ensures
        r == names_model(listed@, model@),
{
    if str_eq(listed, model) {
        return true;
    }
    let l = chars_of(listed);
    let m = chars_of(model);
    if l.len() <= m.len() {
        return false;
    }
    let mut k: usize = 0;
    while k < m.len()
        invariant
            k <= m@.len() < l@.len(),
            l@ == listed@,
            m@ == model@,
            l@.take(k as int) == m@.take(k as int),
        decreases m@.len() - k,
    {
        if l[k] != m[k] {
            assert(l@.take(m@.len() as int)[k as int] != m@[k as int]);
            return false;
        }
        assert(l@.take(k + 1) =~= l@.take(k as int).push(l@[k as int]));
        assert(m@.take(k + 1) =~= m@.take(k as int).push(m@[k as int]));
        k = k + 1;
    }
    assert(m@.take(m@.len() as int) =~= m@);
    l[m.len()] == ':'
}

/// Whether the model server lists the model (see `names_model`).
pub fn model_listed(models: &[String], model: &str) -> (r: bool)
    ensures
        r == exists|i: int| 0 <= i < models@.len() && names_model(#[trigger] models@[i]@, model@),
{
    let mut i: usize = 0;
    while i < models.len()
        invariant
            i <= models@.len(),
            forall|j: int| 0 <= j < i ==> !names_model(#[trigger] models@[j]@, model@),
        decreases models@.len() - i,
    {
        if is_model_name(models[i].as_str(), model) {
            return true;
        }
        i = i + 1;
    }
    false
}

} // verus!

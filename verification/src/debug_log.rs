//! The texts of the per-session debug log (a Markdown file per session):
//! whether logging is switched on, time stamps, and the entries.

use vstd::prelude::*;
use crate::actor::{Actor, actor_views};
use crate::shared::Topic;
use crate::session::{names_of, names_for};
use crate::text::{
    trim, trimmed, chars_of, decimal, push_decimal, digit_char, join_spec, join_strings, string_views,
    lemma_string_views_push, chars_eq,
};
use vstd::string::StrSliceExecFns;

verus! {

/// A character in ASCII lowercase.
pub open spec fn ascii_lower(c: char) -> char {
    if 65 <= (c as u32) <= 90 {
        ((c as u32) + 32) as char
    } else {
        c
    }
}

/// The values of the switch that turn logging on (after trimming and ASCII
/// lowercasing): `1`, `true`, `yes`, `on`, `y`.
pub open spec fn is_truthy_spec(v: Seq<char>) -> bool {
    let l = trim(v).map_values(|c: char| ascii_lower(c));
    l == seq!['1'] || l == seq!['t', 'r', 'u', 'e'] || l == seq!['y', 'e', 's'] || l == seq!['o', 'n']
        || l == seq!['y']
}

/// Whether a value of the logging switch turns logging on (see `is_truthy_spec`).
pub fn is_truthy(v: &str) -> (r: bool)
    ensures
        r == is_truthy_spec(v@),
{
    let cv = chars_of(v);
    let t = trimmed(&cv, 0, cv.len());
    proof {
        assert(cv@.subrange(0, cv@.len() as int) =~= cv@);
    }
    let mut l: Vec<char> = Vec::new();
    let mut i: usize = 0;
    while i < t.len()
        invariant
            i <= t@.len(),
            l@ == t@.take(i as int).map_values(|c: char| ascii_lower(c)),
        decreases t@.len() - i,
    {
        let c = t[i];
        let u = c as u32;
        let d = if 65 <= u && u <= 90 {
            ((u as u8) + 32) as char
        } else {
            c
        };
        assert(d == ascii_lower(c));
        l.push(d);
        assert(t@.take(i + 1).map_values(|c: char| ascii_lower(c)) =~= t@.take(i as int).map_values(
            |c: char| ascii_lower(c),
        ).push(d));
        i = i + 1;
    }
    assert(t@.take(t@.len() as int) =~= t@);
    let one = ['1'];
    let tru = ['t', 'r', 'u', 'e'];
    let yes = ['y', 'e', 's'];
    let on = ['o', 'n'];
    let y = ['y'];
    assert(one@ =~= seq!['1']);
    assert(tru@ =~= seq!['t', 'r', 'u', 'e']);
    assert(yes@ =~= seq!['y', 'e', 's']);
    assert(on@ =~= seq!['o', 'n']);
    assert(y@ =~= seq!['y']);
    chars_eq(l.as_slice(), one.as_slice()) || chars_eq(l.as_slice(), tru.as_slice()) || chars_eq(
        l.as_slice(),
        yes.as_slice(),
    ) || chars_eq(l.as_slice(), on.as_slice()) || chars_eq(l.as_slice(), y.as_slice())
}

/// A number below 100 in two digits.
pub open spec fn two_digits(n: nat) -> Seq<char> {
    seq![digit_char(n / 10), digit_char(n % 10)]
}

/// The time of day (UTC) of a Unix time, as `HH:MM:SS UTC`.
pub open spec fn hms_text(secs: nat) -> Seq<char> {
    two_digits((secs / 3600) % 24) + seq![':'] + two_digits((secs / 60) % 60) + seq![':'] + two_digits(
        secs % 60,
    ) + " UTC"@
}

fn push_two_digits(s: &mut String, n: u64)
    requires
        n < 100,
    ensures
        final(s)@ == old(s)@ + two_digits(n as nat),
{
    let hi = (n / 10) as u8;
    let lo = (n % 10) as u8;
    s.push((hi + 48) as char);
    s.push((lo + 48) as char);
    assert(final(s)@ =~= old(s)@ + two_digits(n as nat));
}

/// The time of day (UTC) of a Unix time (see `hms_text`).
pub fn format_hms(secs: u64) -> (r: String)
    ensures
        r@ == hms_text(secs as nat),
{
    let mut s = String::new();
    push_two_digits(&mut s, (secs / 3600) % 24);
    s.push(':');
    push_two_digits(&mut s, (secs / 60) % 60);
    s.push(':');
    push_two_digits(&mut s, secs % 60);
    s.push_str(" UTC");
    assert(s@ =~= hms_text(secs as nat));
    s
}

/// `SystemTime::now` measured from `UNIX_EPOCH`, in whole seconds (0 where the
/// clock is before the epoch); it depends on the clock, so nothing is promised.
#[verifier::external_body]
fn unix_time_secs() -> u64 {
    std::time::SystemTime::now().duration_since(std::time::UNIX_EPOCH).map(|d| d.as_secs()).unwrap_or(0)
}

/// The current time of day (UTC), as `HH:MM:SS UTC`.
pub fn timestamp_now() -> (r: String)
    ensures
        exists|secs: nat| r@ == hms_text(secs),
{
    let secs = unix_time_secs();
    format_hms(secs)
}

/// The header of a session log.
pub open spec fn session_header_text(
    session_id: Seq<char>,
    started: Seq<char>,
    question: Seq<char>,
    answer: Seq<char>,
    actor_names: Seq<Seq<char>>,
    liar_names: Seq<Seq<char>>,
) -> Seq<char> {
    "# Session `"@ + session_id + "`\n**Started**: "@ + started + "\n**Topic**: "@ + question
        + "\n**Correct answer**: "@ + answer + "\n**Actors**: "@ + join_spec(actor_names, "、"@)
        + "\n**Liars**: "@ + join_spec(liar_names, "、"@) + "\n\n---\n\n"@
}

/// The header of a session log: topic, correct answer, actors and liars.
pub fn session_header(
    session_id: &str,
    started: &str,
    topic: &Topic,
    actors: &[Actor],
    liar_ids: &[String],
) -> (r: String)
    ensures
        r@ == session_header_text(
            session_id@,
            started@,
            topic.question@,
            topic.correct_answer@,
            actor_views(actors@).map_values(|a: crate::actor::ActorView| a.name),
            names_of(string_views(liar_ids@), actor_views(actors@)),
        ),
{
    let ghost av = actor_views(actors@);
    let mut names: Vec<String> = Vec::new();
    let mut i: usize = 0;
    while i < actors.len()
        invariant
            i <= actors@.len(),
            av == actor_views(actors@),
            string_views(names@) == av.take(i as int).map_values(
                |a: crate::actor::ActorView| a.name,
            ),
        decreases actors@.len() - i,
    {
        let n = actors[i].name.clone();
        proof {
            lemma_string_views_push(names@, n);
            assert(av.take(i + 1).map_values(|a: crate::actor::ActorView| a.name) =~= av.take(
                i as int,
            ).map_values(|a: crate::actor::ActorView| a.name).push(n@));
        }
        names.push(n);
        i = i + 1;
    }
    assert(av.take(actors@.len() as int) =~= av);
    let liar_names = names_for(actors, liar_ids);
    let mut s = "# Session `".to_owned();
    s.push_str(session_id);
    s.push_str("`\n**Started**: ");
    s.push_str(started);
    s.push_str("\n**Topic**: ");
    s.push_str(topic.question.as_str());
    s.push_str("\n**Correct answer**: ");
    s.push_str(topic.correct_answer.as_str());
    s.push_str("\n**Actors**: ");
    s.push_str(join_strings(&names, "、").as_str());
    s.push_str("\n**Liars**: ");
    s.push_str(join_strings(&liar_names, "、").as_str());
    s.push_str("\n\n---\n\n");
    s
}

/// The fragments numbered from 1, one per line.
pub open spec fn numbered(frags: Seq<Seq<char>>) -> Seq<Seq<char>> {
    frags.map(|i: int, f: Seq<char>| decimal((i + 1) as nat) + ". "@ + f)
}

/// The log entry of an actor's turn: the raw model output and its fragments.
pub open spec fn actor_turn_text(
    started: Seq<char>,
    name: Seq<char>,
    id: Seq<char>,
    is_liar: bool,
    raw: Seq<char>,
    frags: Seq<Seq<char>>,
) -> Seq<char> {
    let marker = if is_liar {
        " 🤥"@
    } else {
        Seq::empty()
    };
    let block = if frags.len() == 0 {
        "_（無片段）_"@
    } else {
        join_spec(numbered(frags), "\n"@)
    };
    "### `["@ + started + "]` "@ + name + marker + " (`"@ + id + "`)\n**Raw LLM** ("@ + decimal(
        raw.len(),
    ) + " chars):\n```\n"@ + raw + "\n```\n**Fragments** ("@ + decimal(frags.len()) + "):\n"@ + block
        + "\n\n---\n\n"@
}

/// The log entry of an actor's turn (see `actor_turn_text`).
pub fn actor_turn_entry(
    started: &str,
    actor: &Actor,
    is_liar: bool,
    raw: &str,
    fragments: &[String],
) -> (r: String)
    ensures
        r@ == actor_turn_text(
            started@,
            actor.name@,
            actor.id@,
            is_liar,
            raw@,
            string_views(fragments@),
        ),
{
    let ghost fv = string_views(fragments@);
    let mut lines: Vec<String> = Vec::new();
    let mut i: usize = 0;
    while i < fragments.len()
        invariant
            i <= fragments@.len(),
            fv == string_views(fragments@),
            string_views(lines@) == numbered(fv).take(i as int),
        decreases fragments@.len() - i,
    {
        let mut line = String::new();
        push_decimal(&mut line, (i + 1) as u64);
        line.push_str(". ");
        line.push_str(fragments[i].as_str());
        proof {
            lemma_string_views_push(lines@, line);
            assert(Seq::<char>::empty() + decimal((i + 1) as nat) =~= decimal((i + 1) as nat));
            assert(numbered(fv).take(i + 1) =~= numbered(fv).take(i as int).push(line@));
        }
        lines.push(line);
        i = i + 1;
    }
    assert(numbered(fv).take(fragments@.len() as int) =~= numbered(fv));
    let block = if fragments.len() == 0 {
        "_（無片段）_".to_owned()
    } else {
        join_strings(&lines, "\n")
    };
    let marker = if is_liar {
        " 🤥".to_owned()
    } else {
        String::new()
    };
    let mut s = "### `[".to_owned();
    s.push_str(started);
    s.push_str("]` ");
    s.push_str(actor.name.as_str());
    s.push_str(marker.as_str());
    s.push_str(" (`");
    s.push_str(actor.id.as_str());
    s.push_str("`)\n**Raw LLM** (");
    push_decimal(&mut s, raw.unicode_len() as u64);
    s.push_str(" chars):\n```\n");
    s.push_str(raw);
    s.push_str("\n```\n**Fragments** (");
    push_decimal(&mut s, fragments.len() as u64);
    s.push_str("):\n");
    s.push_str(block.as_str());
    s.push_str("\n\n---\n\n");
    s
}

/// The log entry of what the student said.
pub open spec fn student_turn_text(started: Seq<char>, content: Seq<char>) -> Seq<char> {
    "### `["@ + started + "]` 👤 學生\n"@ + content + "\n\n---\n\n"@
}

/// The log entry of what the student said.
pub fn student_turn_entry(started: &str, content: &str) -> (r: String)
    ensures
        r@ == student_turn_text(started@, content@),
{
    let mut s = "### `[".to_owned();
    s.push_str(started);
    s.push_str("]` 👤 學生\n");
    s.push_str(content);
    s.push_str("\n\n---\n\n");
    s
}

} // verus!

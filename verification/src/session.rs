//! One game session: the line-up, the transcript, the prompts each actor gets,
//! and the scoring of the student's accusation.

use vstd::prelude::*;
use vstd::string::StrSliceExecFns;
use uuid::Uuid;
use crate::actor::{Actor, ActorView, actor_views};
use crate::deception::{DeceptionMap, DeceptionPatternView};
use crate::pacing::PacingConfig;
use crate::shared::{Topic, Verdict};
use crate::text::{join_spec, join_strings, string_views, lemma_string_views_push, str_eq};
use crate::prompts::{
    NAME_OPEN, BIO_LABEL, STYLE_LABEL, TRAITS_LABEL, TOPIC_OPEN, RULES, LANGUAGE_RULES, REPEAT_RULES, LENS_OPEN, LENS_CLOSE,
    SECRET_OPEN, SECRET_DESC, SECRET_EXAMPLE, SECRET_CLOSE, EXAMPLE_FALLBACK, HONEST, TRAIT_SEP,
    STUDENT_ID, STUDENT_NAME, OTHER_LINE_OPEN, OTHER_LINE_SEP, OTHERS_HEADER, QUOTE_OPEN,
    QUOTE_CLOSE, OWN_HEADER, OWN_FOOTER, PARAGRAPH_SEP, OPENING_PROMPT, FRAGMENT_SEP, NEWLINE,
    HINT_OPEN, HINT_MID, HINT_CLOSE, HINT_SEP, GREEN_OPEN, GREEN_MID, YELLOW_VAGUE, PARTIAL_OPEN,
    PARTIAL_MID, RED_OPEN, RED_MID, RED_CLOSE,
};
use crate::gateway::{ChatMessage, ChatMessageView, Role, message_views, lemma_message_views_push};
use crate::actor::{first_with_id, find_actor, lemma_first_with_id_bounds};
use crate::fragments::{split_into_fragments, fragments};

verus! {

#[verifier::external_type_specification]
#[verifier::external_body]
pub struct ExUuid(Uuid);

/// `Uuid::new_v4`: a random identifier; nothing is promised of its value.
#[verifier::external_body]
fn new_session_id() -> Uuid {
    Uuid::new_v4()
}

/// One line of the transcript.
#[derive(Debug)]
pub struct ChatTurn {
    pub speaker_id: String,
    pub speaker_name: String,
    pub content: String,
    pub is_liar: bool,
}

/// A transcript line as plain values.
pub struct ChatTurnView {
    pub speaker_id: Seq<char>,
    pub speaker_name: Seq<char>,
    pub content: Seq<char>,
    pub is_liar: bool,
}

impl View for ChatTurn {
    type V = ChatTurnView;

    open spec fn view(&self) -> ChatTurnView {
        ChatTurnView {
            speaker_id: self.speaker_id@,
            speaker_name: self.speaker_name@,
            content: self.content@,
            is_liar: self.is_liar,
        }
    }
}

pub open spec fn turn_views(v: Seq<ChatTurn>) -> Seq<ChatTurnView> {
    v.map_values(|t: ChatTurn| t@)
}

pub proof fn lemma_turn_views_push(v: Seq<ChatTurn>, t: ChatTurn)
    ensures
        turn_views(v.push(t)) == turn_views(v).push(t@),
{
    assert(turn_views(v.push(t)) =~= turn_views(v).push(t@));
}

impl Clone for ChatTurn {
    fn clone(&self) -> (r: Self)
        ensures
            r@ == self@,
    {
        ChatTurn {
            speaker_id: self.speaker_id.clone(),
            speaker_name: self.speaker_name.clone(),
            content: self.content.clone(),
            is_liar: self.is_liar,
        }
    }
}

/// A game session.
pub struct GameSession {
    pub session_id: Uuid,
    pub actors: Vec<Actor>,
    pub liar_ids: Vec<String>,
    pub deceptions: DeceptionMap,
    pub topic: Topic,
    pub transcript: Vec<ChatTurn>,
    pub pacing: PacingConfig,
}

/// The lens line of a prompt: empty where the actor has no lens.
pub open spec fn lens_line(lens: Seq<char>) -> Seq<char> {
    if lens.len() == 0 {
        Seq::empty()
    } else {
        LENS_OPEN@ + lens + LENS_CLOSE@
    }
}

/// The part of a prompt that every actor gets: who they are, the topic, and the
/// rules of the output.
pub open spec fn base_prompt(a: ActorView, question: Seq<char>) -> Seq<char> {
    NAME_OPEN@ + a.name + BIO_LABEL@ + a.short_bio + STYLE_LABEL@ + a.speech_style + TRAITS_LABEL@
        + join_spec(a.personality_traits, TRAIT_SEP@) + lens_line(a.discussion_lens) + TOPIC_OPEN@
        + question + RULES@ + LANGUAGE_RULES@ + REPEAT_RULES@
}

/// The system prompt of an actor: for a liar, the secret instruction with the
/// tactic (and never the answer); for an honest actor, the correct answer.
pub open spec fn system_prompt(
    a: ActorView,
    question: Seq<char>,
    answer: Seq<char>,
    is_liar: bool,
    d: DeceptionPatternView,
) -> Seq<char> {
    if is_liar {
        base_prompt(a, question) + SECRET_OPEN@ + d.name_zh + SECRET_DESC@ + d.description
            + SECRET_EXAMPLE@ + (if d.example.len() == 0 {
            EXAMPLE_FALLBACK@
        } else {
            d.example
        }) + SECRET_CLOSE@
    } else {
        base_prompt(a, question) + HONEST@ + answer
    }
}

impl GameSession {
    /// Whether an id is among the liars.
    pub open spec fn is_liar_id(&self, id: Seq<char>) -> bool {
        string_views(self.liar_ids@).contains(id)
    }

    /// Every liar among the actors has a deception pattern.
    pub open spec fn liar_has_pattern(&self, id: Seq<char>) -> bool {
        self.is_liar_id(id) ==> self.deceptions@.contains_key(id)
    }

    /// The system prompt that an actor gets in this session.
    pub open spec fn prompt_for(&self, a: ActorView) -> Seq<char> {
        system_prompt(
            a,
            self.topic.question@,
            self.topic.correct_answer@,
            self.is_liar_id(a.id),
            self.deceptions@[a.id],
        )
    }

    /// A new session with an empty transcript and a fresh random id.
    pub fn new(
        actors: Vec<Actor>,
        liar_ids: Vec<String>,
        deceptions: DeceptionMap,
        topic: Topic,
        pacing: PacingConfig,
    ) -> (r: Self)
        ensures
            r.actors@ == actors@,
            r.liar_ids@ == liar_ids@,
            r.deceptions@ == deceptions@,
            r.topic@ == topic@,
            r.pacing == pacing,
            r.transcript@.len() == 0,
    {
        GameSession {
            session_id: new_session_id(),
            actors,
            liar_ids,
            deceptions,
            topic,
            transcript: Vec::new(),
            pacing,
        }
    }

    /// Whether an id is among the liars.
    pub fn is_liar(&self, id: &str) -> (r: bool)
        ensures
            r == self.is_liar_id(id@),
    {
        let mut i: usize = 0;
        while i < self.liar_ids.len()
            invariant
                i <= self.liar_ids@.len(),
                forall|j: int| 0 <= j < i ==> string_views(self.liar_ids@)[j] != id@,
            decreases self.liar_ids@.len() - i,
        {
            if str_eq(self.liar_ids[i].as_str(), id) {
                assert(string_views(self.liar_ids@)[i as int] == id@);
                return true;
            }
            i = i + 1;
        }
        false
    }

    fn base_prompt_text(&self, actor: &Actor) -> (r: String)
        ensures
            r@ == base_prompt(actor@, self.topic.question@),
    {
        let mut s = NAME_OPEN.to_owned();
        s.push_str(actor.name.as_str());
        s.push_str(BIO_LABEL);
        s.push_str(actor.short_bio.as_str());
        s.push_str(STYLE_LABEL);
        s.push_str(actor.speech_style.as_str());
        s.push_str(TRAITS_LABEL);
        let traits = join_strings(&actor.personality_traits, TRAIT_SEP);
        s.push_str(traits.as_str());
        let ghost before_lens = s@;
        if actor.discussion_lens.unicode_len() > 0 {
            s.push_str(LENS_OPEN);
            s.push_str(actor.discussion_lens.as_str());
            s.push_str(LENS_CLOSE);
            assert(s@ =~= before_lens + lens_line(actor.discussion_lens@));
        } else {
            assert(s@ =~= before_lens + lens_line(actor.discussion_lens@));
        }
        s.push_str(TOPIC_OPEN);
        s.push_str(self.topic.question.as_str());
        s.push_str(RULES);
        s.push_str(LANGUAGE_RULES);
        s.push_str(REPEAT_RULES);
        s
    }

    /// The system prompt of an actor (see `system_prompt`).
    pub fn compose_system_prompt(&self, actor: &Actor) -> (r: String)
        requires
            self.liar_has_pattern(actor.id@),
        ensures
            r@ == self.prompt_for(actor@),
    {
        let mut s = self.base_prompt_text(actor);
        if self.is_liar(actor.id.as_str()) {
            let d = self.deceptions.get(actor.id.as_str()).unwrap();
            s.push_str(SECRET_OPEN);
            s.push_str(d.name_zh.as_str());
            s.push_str(SECRET_DESC);
            s.push_str(d.description.as_str());
            s.push_str(SECRET_EXAMPLE);
            if d.example.unicode_len() == 0 {
                s.push_str(EXAMPLE_FALLBACK);
            } else {
                s.push_str(d.example.as_str());
            }
            s.push_str(SECRET_CLOSE);
        } else {
            s.push_str(HONEST);
            s.push_str(self.topic.correct_answer.as_str());
        }
        s
    }

    /// Appends what the student said to the transcript.
    pub fn student_says(&mut self, content: String)
        ensures
            final(self).actors@ == old(self).actors@,
            final(self).liar_ids@ == old(self).liar_ids@,
            final(self).deceptions@ == old(self).deceptions@,
            final(self).topic@ == old(self).topic@,
            final(self).pacing == old(self).pacing,
            final(self).session_id == old(self).session_id,
            turn_views(final(self).transcript@) == turn_views(old(self).transcript@).push(
                ChatTurnView {
                    speaker_id: STUDENT_ID@,
                    speaker_name: STUDENT_NAME@,
                    content: content@,
                    is_liar: false,
                },
            ),
    {
        let turn = ChatTurn {
            speaker_id: STUDENT_ID.to_owned(),
            speaker_name: STUDENT_NAME.to_owned(),
            content,
            is_liar: false,
        };
        proof {
            lemma_turn_views_push(self.transcript@, turn);
        }
        self.transcript.push(turn);
    }
}

// ── the messages an actor is prompted with ──────────────────────────────────

/// What the other actors said, one line per utterance (consecutive fragments of
/// one speaker joined with `｜`), and the speaker of the line being extended.
/// The actor's own turns and the student's turns end an utterance.
pub open spec fn others_scan(ts: Seq<ChatTurnView>, me: Seq<char>) -> (
    Seq<Seq<char>>,
    Option<Seq<char>>,
)
    decreases ts.len(),
{
    if ts.len() == 0 {
        (Seq::empty(), None)
    } else {
        let (lines, last) = others_scan(ts.drop_last(), me);
        let t = ts.last();
        if t.speaker_id == me || t.speaker_id == STUDENT_ID@ {
            (lines, None)
        } else if last == Some(t.speaker_id) && lines.len() > 0 {
            (lines.update(lines.len() - 1, lines.last() + FRAGMENT_SEP@ + t.content), last)
        } else {
            (
                lines.push(OTHER_LINE_OPEN@ + t.speaker_name + OTHER_LINE_SEP@ + t.content),
                Some(t.speaker_id),
            )
        }
    }
}

/// The utterances of one speaker (consecutive fragments joined with `sep`), and
/// whether the last turn was theirs.
pub open spec fn utterances_of(ts: Seq<ChatTurnView>, who: Seq<char>, sep: Seq<char>) -> (
    Seq<Seq<char>>,
    bool,
)
    decreases ts.len(),
{
    if ts.len() == 0 {
        (Seq::empty(), false)
    } else {
        let (u, prev) = utterances_of(ts.drop_last(), who, sep);
        let t = ts.last();
        if t.speaker_id == who {
            if prev && u.len() > 0 {
                (u.update(u.len() - 1, u.last() + sep + t.content), true)
            } else {
                (u.push(t.content), true)
            }
        } else {
            (u, false)
        }
    }
}

/// The last five of a list.
pub open spec fn last_five(u: Seq<Seq<char>>) -> Seq<Seq<char>> {
    if u.len() > 5 {
        u.subrange(u.len() - 5, u.len() as int)
    } else {
        u
    }
}

pub open spec fn quoted(u: Seq<Seq<char>>) -> Seq<Seq<char>> {
    u.map_values(|x: Seq<char>| QUOTE_OPEN@ + x + QUOTE_CLOSE@)
}

/// The blocks of a system prompt: the actor prompt, then what others said (if
/// anything), then the actor's own last five utterances (if any), last.
pub open spec fn prompt_blocks(base: Seq<char>, others: Seq<Seq<char>>, own: Seq<Seq<char>>) -> Seq<
    Seq<char>,
> {
    let b1 = seq![base];
    let b2 = if others.len() > 0 {
        b1.push(OTHERS_HEADER@ + join_spec(others, NEWLINE@))
    } else {
        b1
    };
    if own.len() > 0 {
        b2.push(OWN_HEADER@ + join_spec(quoted(last_five(own)), NEWLINE@) + OWN_FOOTER@)
    } else {
        b2
    }
}

pub open spec fn user_view(c: Seq<char>) -> ChatMessageView {
    ChatMessageView { role: Role::User, content: c, tool_call_id: None }
}

/// The chat messages for an actor: one system message, then one user message per
/// run of consecutive student turns (joined with line breaks); where the student
/// has said nothing, a message asking the actor to open.
pub open spec fn messages_for(prompt: Seq<char>, ts: Seq<ChatTurnView>, me: Seq<char>) -> Seq<
    ChatMessageView,
> {
    let sys = join_spec(
        prompt_blocks(prompt, others_scan(ts, me).0, utterances_of(ts, me, FRAGMENT_SEP@).0),
        PARAGRAPH_SEP@,
    );
    let students = utterances_of(ts, STUDENT_ID@, NEWLINE@).0;
    let msgs = seq![ChatMessageView { role: Role::System, content: sys, tool_call_id: None }]
        + students.map_values(|b: Seq<char>| user_view(b));
    if students.len() == 0 {
        msgs.push(user_view(OPENING_PROMPT@))
    } else {
        msgs
    }
}

/// Why a session refuses a request.
#[derive(Debug)]
pub enum SessionError {
    /// No actor of the session has this id.
    UnknownActor(String),
}

pub open spec fn unknown_actor_message(id: Seq<char>) -> Seq<char> {
    "找不到演員 "@ + id
}

impl SessionError {
    /// The message shown for this error.
    pub fn message(&self) -> (r: String)
        ensures
            match self {
                SessionError::UnknownActor(id) => r@ == unknown_actor_message(id@),
            },
    {
        match self {
            SessionError::UnknownActor(id) => {
                let mut m = "找不到演員 ".to_owned();
                m.push_str(id.as_str());
                m
            },
        }
    }
}

/// The turns an actor's reply adds to the transcript: one per fragment.
pub open spec fn reply_turns(frags: Seq<Seq<char>>, id: Seq<char>, name: Seq<char>, liar: bool) -> Seq<
    ChatTurnView,
> {
    frags.map_values(
        |c: Seq<char>| ChatTurnView { speaker_id: id, speaker_name: name, content: c, is_liar: liar },
    )
}

impl GameSession {
    fn others_lines(&self, me: &str) -> (r: Vec<String>)
        ensures
            string_views(r@) == others_scan(turn_views(self.transcript@), me@).0,
    {
        let ghost ts = turn_views(self.transcript@);
        let mut lines: Vec<String> = Vec::new();
        let mut last: Option<usize> = None;
        let mut i: usize = 0;
        while i < self.transcript.len()
            invariant
                i <= self.transcript@.len(),
                ts == turn_views(self.transcript@),
                string_views(lines@) == others_scan(ts.take(i as int), me@).0,
                match last {
                    None => others_scan(ts.take(i as int), me@).1 is None,
                    Some(k) => k < i && others_scan(ts.take(i as int), me@).1 == Some(
                        ts[k as int].speaker_id,
                    ),
                },
            decreases self.transcript@.len() - i,
        {
            let t = &self.transcript[i];
            proof {
                assert(ts.take(i + 1).drop_last() =~= ts.take(i as int));
                assert(ts.take(i + 1).last() == t@);
            }
            if str_eq(t.speaker_id.as_str(), me) || str_eq(t.speaker_id.as_str(), STUDENT_ID) {
                last = None;
            } else {
                let same = match last {
                    Some(k) => str_eq(self.transcript[k].speaker_id.as_str(), t.speaker_id.as_str()),
                    None => false,
                };
                if same && lines.len() > 0 {
                    let mut line = lines.pop().unwrap();
                    let ghost prev = string_views(lines@);
                    line.push_str(FRAGMENT_SEP);
                    line.push_str(t.content.as_str());
                    proof {
                        lemma_string_views_push(lines@, line);
                    }
                    lines.push(line);
                    proof {
                        let old_lines = others_scan(ts.take(i as int), me@).0;
                        assert(old_lines =~= prev.push(old_lines.last()));
                        assert(string_views(lines@) =~= old_lines.update(
                            old_lines.len() - 1,
                            old_lines.last() + FRAGMENT_SEP@ + t.content@,
                        ));
                    }
                } else {
                    let mut line = OTHER_LINE_OPEN.to_owned();
                    line.push_str(t.speaker_name.as_str());
                    line.push_str(OTHER_LINE_SEP);
                    line.push_str(t.content.as_str());
                    proof {
                        lemma_string_views_push(lines@, line);
                    }
                    lines.push(line);
                    last = Some(i);
                }
            }
            i = i + 1;
        }
        proof {
            assert(ts.take(self.transcript@.len() as int) =~= ts);
        }
        lines
    }

    fn utterances(&self, who: &str, sep: &str) -> (r: Vec<String>)
        ensures
            string_views(r@) == utterances_of(turn_views(self.transcript@), who@, sep@).0,
    {
        let ghost ts = turn_views(self.transcript@);
        let mut u: Vec<String> = Vec::new();
        let mut prev = false;
        let mut i: usize = 0;
        while i < self.transcript.len()
            invariant
                i <= self.transcript@.len(),
                ts == turn_views(self.transcript@),
                string_views(u@) == utterances_of(ts.take(i as int), who@, sep@).0,
                prev == utterances_of(ts.take(i as int), who@, sep@).1,
            decreases self.transcript@.len() - i,
        {
            let t = &self.transcript[i];
            proof {
                assert(ts.take(i + 1).drop_last() =~= ts.take(i as int));
                assert(ts.take(i + 1).last() == t@);
            }
            if str_eq(t.speaker_id.as_str(), who) {
                if prev && u.len() > 0 {
                    let mut last = u.pop().unwrap();
                    let ghost before = string_views(u@);
                    last.push_str(sep);
                    last.push_str(t.content.as_str());
                    proof {
                        lemma_string_views_push(u@, last);
                        let old_u = utterances_of(ts.take(i as int), who@, sep@).0;
                        assert(old_u =~= before.push(old_u.last()));
                        assert(string_views(u@.push(last)) =~= old_u.update(
                            old_u.len() - 1,
                            old_u.last() + sep@ + t.content@,
                        ));
                    }
                    u.push(last);
                } else {
                    let c = t.content.clone();
                    proof {
                        lemma_string_views_push(u@, c);
                    }
                    u.push(c);
                }
                prev = true;
            } else {
                prev = false;
            }
            i = i + 1;
        }
        proof {
            assert(ts.take(self.transcript@.len() as int) =~= ts);
        }
        u
    }

    /// The chat messages that prompt an actor (see `messages_for`).
    pub fn build_messages_for_actor(&self, actor: &Actor) -> (r: Vec<ChatMessage>)
        requires
            self.liar_has_pattern(actor.id@),
        ensures
            message_views(r@) == messages_for(
                self.prompt_for(actor@),
                turn_views(self.transcript@),
                actor.id@,
            ),
    {
        let ghost ts = turn_views(self.transcript@);
        let base = self.compose_system_prompt(actor);
        let others = self.others_lines(actor.id.as_str());
        let own = self.utterances(actor.id.as_str(), FRAGMENT_SEP);
        let mut parts: Vec<String> = Vec::new();
        let ghost blocks0 = seq![base@];
        parts.push(base);
        assert(string_views(parts@) =~= blocks0);
        if others.len() > 0 {
            let mut b = OTHERS_HEADER.to_owned();
            let joined = join_strings(&others, NEWLINE);
            b.push_str(joined.as_str());
            proof {
                lemma_string_views_push(parts@, b);
            }
            parts.push(b);
        }
        if own.len() > 0 {
            // only the last five utterances
            let start: usize = if own.len() > 5 {
                own.len() - 5
            } else {
                0
            };
            let mut quotes: Vec<String> = Vec::new();
            let mut k = start;
            while k < own.len()
                invariant
                    start <= k <= own@.len(),
                    string_views(quotes@) == quoted(string_views(own@).subrange(
                        start as int,
                        k as int,
                    )),
                decreases own@.len() - k,
            {
                let mut q = QUOTE_OPEN.to_owned();
                q.push_str(own[k].as_str());
                q.push_str(QUOTE_CLOSE);
                proof {
                    lemma_string_views_push(quotes@, q);
                    assert(quoted(string_views(own@).subrange(start as int, k + 1)) =~= quoted(
                        string_views(own@).subrange(start as int, k as int),
                    ).push(q@));
                }
                quotes.push(q);
                k = k + 1;
            }
            proof {
                assert(string_views(own@).subrange(start as int, own@.len() as int) =~= last_five(
                    string_views(own@),
                ));
            }
            let mut b = OWN_HEADER.to_owned();
            let joined = join_strings(&quotes, NEWLINE);
            b.push_str(joined.as_str());
            b.push_str(OWN_FOOTER);
            proof {
                lemma_string_views_push(parts@, b);
            }
            parts.push(b);
        }
        assert(string_views(parts@) =~= prompt_blocks(
            base@,
            others_scan(ts, actor.id@).0,
            utterances_of(ts, actor.id@, FRAGMENT_SEP@).0,
        ));
        let system_prompt = join_strings(&parts, PARAGRAPH_SEP);
        let mut messages: Vec<ChatMessage> = Vec::new();
        let sys_msg = ChatMessage::system(system_prompt.as_str());
        proof {
            lemma_message_views_push(messages@, sys_msg);
        }
        messages.push(sys_msg);
        let students = self.utterances(STUDENT_ID, NEWLINE);
        let ghost sv = string_views(students@);
        let ghost head = message_views(messages@);
        let mut k: usize = 0;
        while k < students.len()
            invariant
                k <= students@.len(),
                sv == string_views(students@),
                message_views(messages@) == head + sv.take(k as int).map_values(
                    |b: Seq<char>| user_view(b),
                ),
            decreases students@.len() - k,
        {
            let m = ChatMessage::user(students[k].as_str());
            proof {
                lemma_message_views_push(messages@, m);
                assert(sv.take(k + 1).map_values(|b: Seq<char>| user_view(b)) =~= sv.take(
                    k as int,
                ).map_values(|b: Seq<char>| user_view(b)).push(user_view(sv[k as int])));
            }
            messages.push(m);
            k = k + 1;
        }
        proof {
            assert(sv.take(students@.len() as int) =~= sv);
        }
        if messages.len() == 1 {
            let m = ChatMessage::user(OPENING_PROMPT);
            proof {
                lemma_message_views_push(messages@, m);
            }
            messages.push(m);
        }
        messages
    }

    /// The chat messages that prompt the actor with the given id, or
    /// `UnknownActor` where no actor has it.
    pub fn messages_for_actor(&self, actor_id: &str) -> (r: Result<Vec<ChatMessage>, SessionError>)
        requires
            self.liar_has_pattern(actor_id@),
        ensures
            match first_with_id(actor_views(self.actors@), actor_id@) {
                None => r matches Err(SessionError::UnknownActor(id)) && id@ == actor_id@,
                Some(k) => r matches Ok(m) && message_views(m@) == messages_for(
                    self.prompt_for(self.actors@[k]@),
                    turn_views(self.transcript@),
                    actor_id@,
                ),
            },
    {
        match find_actor(self.actors.as_slice(), actor_id) {
            None => Err(SessionError::UnknownActor(actor_id.to_owned())),
            Some(k) => {
                proof {
                    lemma_first_with_id_bounds(actor_views(self.actors@), actor_id@);
                }
                Ok(self.build_messages_for_actor(&self.actors[k]))
            },
        }
    }

    /// Records an actor's reply: the reply is cut into fragments, each of which
    /// becomes a turn of the actor; the fragments are returned. `UnknownActor`,
    /// with the transcript unchanged, where no actor has the id.
    pub fn actor_respond(&mut self, actor_id: &str, reply: &str) -> (r: Result<
        Vec<String>,
        SessionError,
    >)
        ensures
            final(self).actors@ == old(self).actors@,
            final(self).liar_ids@ == old(self).liar_ids@,
            final(self).deceptions@ == old(self).deceptions@,
            final(self).topic@ == old(self).topic@,
            final(self).pacing == old(self).pacing,
            final(self).session_id == old(self).session_id,
            match first_with_id(actor_views(old(self).actors@), actor_id@) {
                None => (r matches Err(SessionError::UnknownActor(id)) && id@ == actor_id@)
                    && final(self).transcript@ == old(self).transcript@,
                Some(k) => (r matches Ok(f) && string_views(f@) == fragments(reply@))
                    && turn_views(final(self).transcript@) == turn_views(old(self).transcript@)
                    + reply_turns(
                    fragments(reply@),
                    actor_id@,
                    old(self).actors@[k].name@,
                    old(self).is_liar_id(actor_id@),
                ),
            },
    {
        let k = match find_actor(self.actors.as_slice(), actor_id) {
            None => {
                return Err(SessionError::UnknownActor(actor_id.to_owned()));
            },
            Some(k) => k,
        };
        proof {
            lemma_first_with_id_bounds(actor_views(self.actors@), actor_id@);
        }
        let frags = split_into_fragments(reply);
        let is_liar = self.is_liar(actor_id);
        let ghost start = turn_views(self.transcript@);
        let ghost fv = string_views(frags@);
        let ghost name = self.actors@[k as int].name@;
        let mut i: usize = 0;
        while i < frags.len()
            invariant
                i <= frags@.len(),
                k < self.actors@.len(),
                self.actors@ == old(self).actors@,
                self.liar_ids@ == old(self).liar_ids@,
                self.deceptions@ == old(self).deceptions@,
                self.topic@ == old(self).topic@,
                self.pacing == old(self).pacing,
                self.session_id == old(self).session_id,
                name == self.actors@[k as int].name@,
                fv == string_views(frags@),
                start == turn_views(old(self).transcript@),
                turn_views(self.transcript@) == start + reply_turns(
                    fv.take(i as int),
                    actor_id@,
                    name,
                    is_liar,
                ),
            decreases frags@.len() - i,
        {
            let turn = ChatTurn {
                speaker_id: actor_id.to_owned(),
                speaker_name: self.actors[k].name.clone(),
                content: frags[i].clone(),
                is_liar,
            };
            proof {
                lemma_turn_views_push(self.transcript@, turn);
                assert(reply_turns(fv.take(i + 1), actor_id@, name, is_liar) =~= reply_turns(
                    fv.take(i as int),
                    actor_id@,
                    name,
                    is_liar,
                ).push(turn@));
            }
            self.transcript.push(turn);
            i = i + 1;
        }
        proof {
            assert(fv.take(frags@.len() as int) =~= fv);
        }
        Ok(frags)
    }
}

// ── scoring ─────────────────────────────────────────────────────────────────

/// The members of `s` that `o` does not hold, in order.
pub open spec fn not_in(s: Seq<Seq<char>>, o: Seq<Seq<char>>) -> Seq<Seq<char>>
    decreases s.len(),
{
    if s.len() == 0 {
        s
    } else if o.contains(s.last()) {
        not_in(s.drop_last(), o)
    } else {
        not_in(s.drop_last(), o).push(s.last())
    }
}

/// The first occurrence of every member, in order.
pub open spec fn dedup(s: Seq<Seq<char>>) -> Seq<Seq<char>>
    decreases s.len(),
{
    if s.len() == 0 {
        s
    } else if dedup(s.drop_last()).contains(s.last()) {
        dedup(s.drop_last())
    } else {
        dedup(s.drop_last()).push(s.last())
    }
}

/// The names of the actors with the given ids (ids of no actor are skipped).
pub open spec fn names_of(ids: Seq<Seq<char>>, actors: Seq<ActorView>) -> Seq<Seq<char>>
    decreases ids.len(),
{
    if ids.len() == 0 {
        Seq::empty()
    } else {
        match first_with_id(actors, ids.last()) {
            Some(k) => names_of(ids.drop_last(), actors).push(actors[k].name),
            None => names_of(ids.drop_last(), actors),
        }
    }
}

/// The learning hint of every liar that has a pattern: its tactic and goal.
pub open spec fn hints_of(ids: Seq<Seq<char>>, dec: Map<Seq<char>, DeceptionPatternView>) -> Seq<
    Seq<char>,
>
    decreases ids.len(),
{
    if ids.len() == 0 {
        Seq::empty()
    } else if dec.contains_key(ids.last()) {
        hints_of(ids.drop_last(), dec).push(
            HINT_OPEN@ + dec[ids.last()].name_zh + HINT_MID@ + dec[ids.last()].teaching_goal
                + HINT_CLOSE@,
        )
    } else {
        hints_of(ids.drop_last(), dec)
    }
}

/// Every member of `s` is in `o`.
pub open spec fn all_in(s: Seq<Seq<char>>, o: Seq<Seq<char>>) -> bool {
    forall|i: int| 0 <= i < s.len() ==> o.contains(#[trigger] s[i])
}

/// Some member of `s` is in `o`.
pub open spec fn any_in(s: Seq<Seq<char>>, o: Seq<Seq<char>>) -> bool {
    exists|i: int| 0 <= i < s.len() && o.contains(#[trigger] s[i])
}

/// The verdict of an accusation: all liars and only liars accused is green with
/// a reason of more than ten characters and yellow otherwise; some liars and
/// only liars is yellow; anything else (an honest actor accused, or no liar
/// found) is red.
pub open spec fn verdict_of(liars: Seq<Seq<char>>, accused: Seq<Seq<char>>, reason_len: nat) -> Verdict {
    if all_in(accused, liars) && all_in(liars, accused) {
        if reason_len > 10 {
            Verdict::Green
        } else {
            Verdict::Yellow
        }
    } else if any_in(accused, liars) && all_in(accused, liars) {
        Verdict::Yellow
    } else {
        Verdict::Red
    }
}

/// The feedback that goes with the verdict.
pub open spec fn feedback_of(
    liars: Seq<Seq<char>>,
    accused: Seq<Seq<char>>,
    reason_len: nat,
    actors: Seq<ActorView>,
    dec: Map<Seq<char>, DeceptionPatternView>,
) -> Seq<char> {
    let hints = join_spec(hints_of(liars, dec), HINT_SEP@);
    let liar_names = join_spec(names_of(liars, actors), TRAIT_SEP@);
    if all_in(accused, liars) && all_in(liars, accused) {
        if reason_len > 10 {
            GREEN_OPEN@ + liar_names + GREEN_MID@ + hints
        } else {
            YELLOW_VAGUE@ + hints
        }
    } else if any_in(accused, liars) && all_in(accused, liars) {
        PARTIAL_OPEN@ + join_spec(names_of(dedup(not_in(liars, accused)), actors), TRAIT_SEP@)
            + PARTIAL_MID@ + hints
    } else {
        RED_OPEN@ + join_spec(names_of(dedup(not_in(accused, liars)), actors), TRAIT_SEP@) + RED_MID@
            + liar_names + RED_CLOSE@
    }
}

/// Whether a list of strings holds the given text.
pub fn contains_str(v: &[String], x: &str) -> (r: bool)
    ensures
        r == string_views(v@).contains(x@),
{
    let mut i: usize = 0;
    while i < v.len()
        invariant
            i <= v@.len(),
            forall|j: int| 0 <= j < i ==> string_views(v@)[j] != x@,
        decreases v@.len() - i,
    {
        if str_eq(v[i].as_str(), x) {
            assert(string_views(v@)[i as int] == x@);
            return true;
        }
        i = i + 1;
    }
    false
}

fn all_in_exec(s: &[String], o: &[String]) -> (r: bool)
    ensures
        r == all_in(string_views(s@), string_views(o@)),
{
    let mut i: usize = 0;
    while i < s.len()
        invariant
            i <= s@.len(),
            forall|j: int| 0 <= j < i ==> string_views(o@).contains(#[trigger] string_views(s@)[j]),
        decreases s@.len() - i,
    {
        assert(string_views(s@)[i as int] == s@[i as int]@);
        if !contains_str(o, s[i].as_str()) {
            return false;
        }
        i = i + 1;
    }
    true
}

fn any_in_exec(s: &[String], o: &[String]) -> (r: bool)
    ensures
        r == any_in(string_views(s@), string_views(o@)),
{
    let mut i: usize = 0;
    while i < s.len()
        invariant
            i <= s@.len(),
            forall|j: int| 0 <= j < i ==> !string_views(o@).contains(#[trigger] string_views(s@)[j]),
        decreases s@.len() - i,
    {
        assert(string_views(s@)[i as int] == s@[i as int]@);
        if contains_str(o, s[i].as_str()) {
            return true;
        }
        i = i + 1;
    }
    false
}

fn not_in_exec(s: &[String], o: &[String]) -> (r: Vec<String>)
    ensures
        string_views(r@) == not_in(string_views(s@), string_views(o@)),
{
    let ghost sv = string_views(s@);
    let mut r: Vec<String> = Vec::new();
    let mut i: usize = 0;
    while i < s.len()
        invariant
            i <= s@.len(),
            sv == string_views(s@),
            string_views(r@) == not_in(sv.take(i as int), string_views(o@)),
        decreases s@.len() - i,
    {
        proof {
            assert(sv.take(i + 1).drop_last() =~= sv.take(i as int));
        }
        if !contains_str(o, s[i].as_str()) {
            let c = s[i].clone();
            proof {
                lemma_string_views_push(r@, c);
            }
            r.push(c);
        }
        i = i + 1;
    }
    assert(sv.take(s@.len() as int) =~= sv);
    r
}

fn dedup_exec(s: &Vec<String>) -> (r: Vec<String>)
    ensures
        string_views(r@) == dedup(string_views(s@)),
{
    let ghost sv = string_views(s@);
    let mut r: Vec<String> = Vec::new();
    let mut i: usize = 0;
    while i < s.len()
        invariant
            i <= s@.len(),
            sv == string_views(s@),
            string_views(r@) == dedup(sv.take(i as int)),
        decreases s@.len() - i,
    {
        proof {
            assert(sv.take(i + 1).drop_last() =~= sv.take(i as int));
        }
        if !contains_str(r.as_slice(), s[i].as_str()) {
            let c = s[i].clone();
            proof {
                lemma_string_views_push(r@, c);
            }
            r.push(c);
        }
        i = i + 1;
    }
    assert(sv.take(s@.len() as int) =~= sv);
    r
}

/// The names of the actors with the given ids (see `names_of`).
pub fn names_for(actors: &[Actor], ids: &[String]) -> (r: Vec<String>)
    ensures
        string_views(r@) == names_of(string_views(ids@), actor_views(actors@)),
{
    let ghost iv = string_views(ids@);
    let ghost av = actor_views(actors@);
    let mut r: Vec<String> = Vec::new();
    let mut i: usize = 0;
    while i < ids.len()
        invariant
            i <= ids@.len(),
            iv == string_views(ids@),
            av == actor_views(actors@),
            string_views(r@) == names_of(iv.take(i as int), av),
        decreases ids@.len() - i,
    {
        proof {
            assert(iv.take(i + 1).drop_last() =~= iv.take(i as int));
            assert(iv.take(i + 1).last() == ids@[i as int]@);
        }
        match find_actor(actors, ids[i].as_str()) {
            Some(k) => {
                let n = actors[k].name.clone();
                proof {
                    lemma_string_views_push(r@, n);
                }
                r.push(n);
            },
            None => {},
        }
        i = i + 1;
    }
    assert(iv.take(ids@.len() as int) =~= iv);
    r
}

impl GameSession {
    fn names_exec(&self, ids: &[String]) -> (r: Vec<String>)
        ensures
            string_views(r@) == names_of(string_views(ids@), actor_views(self.actors@)),
    {
        names_for(self.actors.as_slice(), ids)
    }

    fn hints_exec(&self) -> (r: Vec<String>)
        ensures
            string_views(r@) == hints_of(string_views(self.liar_ids@), self.deceptions@),
    {
        let ghost iv = string_views(self.liar_ids@);
        let mut r: Vec<String> = Vec::new();
        let mut i: usize = 0;
        while i < self.liar_ids.len()
            invariant
                i <= self.liar_ids@.len(),
                iv == string_views(self.liar_ids@),
                string_views(r@) == hints_of(iv.take(i as int), self.deceptions@),
            decreases self.liar_ids@.len() - i,
        {
            proof {
                assert(iv.take(i + 1).drop_last() =~= iv.take(i as int));
                assert(iv.take(i + 1).last() == self.liar_ids@[i as int]@);
            }
            match self.deceptions.get(self.liar_ids[i].as_str()) {
                Some(d) => {
                    let mut h = HINT_OPEN.to_owned();
                    h.push_str(d.name_zh.as_str());
                    h.push_str(HINT_MID);
                    h.push_str(d.teaching_goal.as_str());
                    h.push_str(HINT_CLOSE);
                    proof {
                        lemma_string_views_push(r@, h);
                    }
                    r.push(h);
                },
                None => {},
            }
            i = i + 1;
        }
        assert(iv.take(self.liar_ids@.len() as int) =~= iv);
        r
    }

    /// Scores an accusation of several actors (see `verdict_of` and `feedback_of`).
    pub fn score_multi(&self, accused_ids: &[String], reason: &str) -> (r: (Verdict, String))
        ensures
            r.0 == verdict_of(
                string_views(self.liar_ids@),
                string_views(accused_ids@),
                reason@.len(),
            ),
            r.1@ == feedback_of(
                string_views(self.liar_ids@),
                string_views(accused_ids@),
                reason@.len(),
                actor_views(self.actors@),
                self.deceptions@,
            ),
    {
        let liars = self.liar_ids.as_slice();
        let hint_list = self.hints_exec();
        let hints = join_strings(&hint_list, HINT_SEP);
        let liar_name_list = self.names_exec(liars);
        let liar_names = join_strings(&liar_name_list, TRAIT_SEP);
        let only_liars = all_in_exec(accused_ids, liars);
        let all_liars = all_in_exec(liars, accused_ids);
        if only_liars && all_liars {
            if reason.unicode_len() > 10 {
                let mut f = GREEN_OPEN.to_owned();
                f.push_str(liar_names.as_str());
                f.push_str(GREEN_MID);
                f.push_str(hints.as_str());
                (Verdict::Green, f)
            } else {
                let mut f = YELLOW_VAGUE.to_owned();
                f.push_str(hints.as_str());
                (Verdict::Yellow, f)
            }
        } else if any_in_exec(accused_ids, liars) && only_liars {
            let missed = dedup_exec(&not_in_exec(liars, accused_ids));
            let missed_names = self.names_exec(missed.as_slice());
            let mut f = PARTIAL_OPEN.to_owned();
            f.push_str(join_strings(&missed_names, TRAIT_SEP).as_str());
            f.push_str(PARTIAL_MID);
            f.push_str(hints.as_str());
            (Verdict::Yellow, f)
        } else {
            let wrong = dedup_exec(&not_in_exec(accused_ids, liars));
            let wrong_names = self.names_exec(wrong.as_slice());
            let mut f = RED_OPEN.to_owned();
            f.push_str(join_strings(&wrong_names, TRAIT_SEP).as_str());
            f.push_str(RED_MID);
            f.push_str(liar_names.as_str());
            f.push_str(RED_CLOSE);
            (Verdict::Red, f)
        }
    }

    /// Scores an accusation of one actor: the same as `score_multi` with that
    /// one id.
    pub fn score(&self, accused_id: &str, reason: &str) -> (r: (Verdict, String))
        ensures
            r.0 == verdict_of(string_views(self.liar_ids@), seq![accused_id@], reason@.len()),
            r.1@ == feedback_of(
                string_views(self.liar_ids@),
                seq![accused_id@],
                reason@.len(),
                actor_views(self.actors@),
                self.deceptions@,
            ),
    {
        let accused = vec![accused_id.to_owned()];
        assert(string_views(accused@) =~= seq![accused_id@]);
        self.score_multi(accused.as_slice(), reason)
    }
}

} // verus!

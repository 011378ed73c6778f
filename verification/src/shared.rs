//! Types shared by the whole game: verdicts, difficulty levels and topics.

use vstd::prelude::*;
use crate::text::string_views;
use uuid::Uuid;

verus! {

/// The grade of an accusation: green (all liars found, with a concrete reason),
/// yellow (right but vague, or only some liars found), red (an honest actor accused
/// or no liar found).
#[derive(Debug, Clone, Copy, PartialEq, Eq, Structural)]
pub enum Verdict {
    Green,
    Yellow,
    Red,
}

/// How hard a topic or a deception pattern is.
#[derive(Debug, Clone, Copy, PartialEq, Eq, Structural)]
pub enum Difficulty {
    Easy,
    Medium,
    Hard,
}

/// A discussion topic.
#[derive(Debug)]
pub struct Topic {
    pub id: String,
    pub question: String,
    pub correct_answer: String,
    pub difficulty: Difficulty,
    pub tags: Vec<String>,
}

/// A topic as plain values.
pub struct TopicView {
    pub id: Seq<char>,
    pub question: Seq<char>,
    pub correct_answer: Seq<char>,
    pub difficulty: Difficulty,
    pub tags: Seq<Seq<char>>,
}

impl View for Topic {
    type V = TopicView;

    open spec fn view(&self) -> TopicView {
        TopicView {
            id: self.id@,
            question: self.question@,
            correct_answer: self.correct_answer@,
            difficulty: self.difficulty,
            tags: string_views(self.tags@),
        }
    }
}

impl Clone for Topic {
    fn clone(&self) -> (r: Self)
        ensures
            r@ == self@,
    {
        let tags = self.tags.clone();
        assert(tags@ =~= self.tags@);
        Topic {
            id: self.id.clone(),
            question: self.question.clone(),
            correct_answer: self.correct_answer.clone(),
            difficulty: self.difficulty,
            tags,
        }
    }
}

/// Who is playing, as the sign-in session tells it.
#[derive(Debug)]
pub struct UserContext {
    pub user_id: Uuid,
    pub display_name: String,
}

/// The result of a game, as reported to the hosting environment.
#[derive(Debug)]
pub struct GameResult {
    pub session_id: Uuid,
    pub user_id: Uuid,
    pub score: u32,
    pub verdict: Verdict,
    pub liar_ids_found: Vec<String>,
    pub correct: bool,
}

} // verus!

use vstd::prelude::*;

use crate::subject::{items_view, ReviewItem, ReviewItemView, Subject, SubjectView};
use crate::text::{lowercase, normalized, normalize_answer, to_lowercase, trimmed};

verus! {

/// A review session: the items in the order they are asked, and the index
/// of the item asked next.
pub struct Session {
    pub items: Vec<ReviewItem>,
    pub current_index: usize,
}

/// A session, as plain values.
pub struct SessionView {
    pub items: Seq<ReviewItemView>,
    pub current: nat,
}

impl View for Session {
    type V = SessionView;

    open spec fn view(&self) -> SessionView {
        SessionView { items: items_view(self.items@), current: self.current_index as nat }
    }
}

/// The subject asked next, if any is left.
pub open spec fn question_of(s: SessionView) -> Option<SubjectView> {
    if s.current < s.items.len() {
        Some(s.items[s.current as int].subject)
    } else {
        None
    }
}

/// An item after one more answer: asked once more, and right once more when
/// the answer was right.
pub open spec fn answered(item: ReviewItemView, correct: bool) -> ReviewItemView {
    ReviewItemView {
        seen: item.seen + 1,
        correct: if correct {
            item.correct + 1
        } else {
            item.correct
        },
        ..item
    }
}

/// A session after one answer: the current item, if any is left, records
/// it, and the session moves on to the next item.
pub open spec fn after_answer(s: SessionView, correct: bool) -> SessionView {
    SessionView {
        items: if s.current < s.items.len() {
            s.items.update(s.current as int, answered(s.items[s.current as int], correct))
        } else {
            s.items
        },
        current: s.current + 1,
    }
}

/// Whether a session can take one more answer without a counter going past
/// `usize::MAX`.
pub open spec fn can_answer(s: SessionView, correct: bool) -> bool {
    &&& s.current < usize::MAX
    &&& s.current < s.items.len() ==> {
        &&& s.items[s.current as int].seen < usize::MAX
        &&& correct ==> s.items[s.current as int].correct < usize::MAX
    }
}

impl Session {
    /// A session that asks `items` in order, starting with the first.
    pub fn new(items: Vec<ReviewItem>) -> (r: Self)
        ensures
            r.items@ == items@,
            r.current_index == 0,
    {
        Self { items, current_index: 0 }
    }

    /// The subject asked next: `None` once every item has been asked.
    pub fn next_question(&mut self) -> (r: Option<&Subject>)
        ensures
            *final(self) == *old(self),
            match r {
                Some(s) => question_of(old(self)@) == Some(s@),
                None => question_of(old(self)@) is None,
            },
    {
        if self.current_index >= self.items.len() {
            None
        } else {
            Some(&self.items[self.current_index].subject)
        }
    }

    /// Records the answer to the current item, if any is left: it counts as
    /// seen, and as right when `correct` is. The session then moves on.
    pub fn submit_answer(&mut self, correct: bool)
        requires
            can_answer(old(self)@, correct),
        ensures
            final(self)@ == after_answer(old(self)@, correct),
    {
        let ghost before = self@;
        let i = self.current_index;
        if i < self.items.len() {
            let item = &mut self.items[i];
            item.seen = item.seen + 1;
            if correct {
                item.correct = item.correct + 1;
            }
            assert(items_view(self.items@) =~= before.items.update(
                i as int,
                answered(before.items[i as int], correct),
            ));
        }
        self.current_index = self.current_index + 1;
    }
}

/// Whether `reply` gives a subject's first meaning: both in lower case, the
/// reply also trimmed, are equal. A subject without meanings takes no reply.
pub open spec fn meaning_matches(s: SubjectView, reply: Seq<char>) -> bool {
    s.meanings.len() > 0 && lowercase(s.meanings[0]) == normalized(reply)
}

/// A reply is taken as right exactly when the subject has a meaning and the
/// reply, trimmed of whitespace and in lower case, equals the first meaning
/// in lower case; for the subject asked next in a session, the same holds of
/// the review's answer, and with no subject left no answer is right.
pub proof fn lemma_meaning_check(s: SubjectView, session: SessionView, reply: Seq<char>)
    ensures
        meaning_matches(s, reply) <==> (s.meanings.len() > 0 && lowercase(s.meanings[0])
            == lowercase(trimmed(reply))),
        current_right(session, reply) <==> (session.current < session.items.len()
            && session.items[session.current as int].subject.meanings.len() > 0 && lowercase(
            session.items[session.current as int].subject.meanings[0],
        ) == lowercase(trimmed(reply))),
{
}

/// Whether `reply` gives the first meaning of `subject`.
pub fn check_meaning(subject: &Subject, reply: &str) -> (r: bool)
    ensures
        r == meaning_matches(subject@, reply@),
{
    if subject.meanings.len() == 0 {
        return false;
    }
    let ans = normalize_answer(reply);
    let first = to_lowercase(subject.meanings[0].as_str());
    assert(subject@.meanings[0] == subject.meanings@[0]@);
    first == ans
}

/// Whether `reply` gives the meaning of the subject asked next.
pub open spec fn current_right(s: SessionView, reply: Seq<char>) -> bool {
    match question_of(s) {
        Some(q) => meaning_matches(q, reply),
        None => false,
    }
}

/// A review in progress: the session and the number of right answers.
pub struct Review {
    pub session: Session,
    pub score: usize,
}

impl Review {
    /// A review of `items`, in order, with no answer yet.
    pub fn new(items: Vec<ReviewItem>) -> (r: Self)
        ensures
            r.session.items@ == items@,
            r.session.current_index == 0,
            r.score == 0,
    {
        Review { session: Session::new(items), score: 0 }
    }

    /// Takes `reply` as the answer to the subject asked next: `None` when no
    /// subject is left; otherwise whether it gives the subject's meaning. The
    /// session records the answer, and a right one adds one to the score.
    pub fn answer(&mut self, reply: &str) -> (r: Option<bool>)
        requires
            question_of(old(self).session@) is Some ==> can_answer(
                old(self).session@,
                current_right(old(self).session@, reply@),
            ),
            current_right(old(self).session@, reply@) ==> old(self).score < usize::MAX,
        ensures
            question_of(old(self).session@) is None ==> r is None && final(self).session@ == old(
                self,
            ).session@ && final(self).score == old(self).score,
            question_of(old(self).session@) is Some ==> {
                let right = current_right(old(self).session@, reply@);
                &&& r == Some(right)
                &&& final(self).session@ == after_answer(old(self).session@, right)
                &&& final(self).score == old(self).score + (if right {
                    1int
                } else {
                    0int
                })
            },
    {
        let right = match self.session.next_question() {
            Some(subject) => check_meaning(subject, reply),
            None => {
                return None;
            },
        };
        self.session.submit_answer(right);
        if right {
            self.score = self.score + 1;
        }
        Some(right)
    }
}

/// A session after the answers `answers`, given in turn.
pub open spec fn after_answers(s: SessionView, answers: Seq<bool>) -> SessionView
    decreases answers.len(),
{
    if answers.len() == 0 {
        s
    } else {
        after_answers(after_answer(s, answers[0]), answers.drop_first())
    }
}

proof fn lemma_after_answers_from(s: SessionView, answers: Seq<bool>)
    ensures
        after_answers(s, answers).current == s.current + answers.len(),
        after_answers(s, answers).items.len() == s.items.len(),
        forall|j: int|
            0 <= j < s.items.len() && !(s.current <= j < s.current + answers.len())
                ==> #[trigger] after_answers(s, answers).items[j] == s.items[j],
        forall|j: int|
            0 <= j < s.items.len() && s.current <= j < s.current + answers.len()
                ==> #[trigger] after_answers(s, answers).items[j] == answered(
                s.items[j],
                answers[j - s.current],
            ),
    decreases answers.len(),
{
    if answers.len() > 0 {
        let t = after_answer(s, answers[0]);
        let rest = answers.drop_first();
        lemma_after_answers_from(t, rest);
        let done = after_answers(s, answers);
        assert(done == after_answers(t, rest));
        assert forall|j: int|
            0 <= j < s.items.len() && !(s.current <= j < s.current + answers.len())
                implies #[trigger] done.items[j] == s.items[j] by {
            assert(!(t.current <= j < t.current + rest.len()));
        }
        assert forall|j: int|
            0 <= j < s.items.len() && s.current <= j < s.current + answers.len()
                implies #[trigger] done.items[j] == answered(s.items[j], answers[j - s.current]) by {
            if j > s.current {
                assert(rest[j - t.current] == answers[j - s.current]);
            } else {
                assert(!(t.current <= j < t.current + rest.len()));
            }
        }
    }
}

/// An answer never makes an item counted right more often than seen.
pub proof fn lemma_answer_keeps_counts(s: SessionView, correct: bool)
    requires
        forall|k: int| 0 <= k < s.items.len() ==> (#[trigger] s.items[k]).correct <= s.items[k].seen,
    ensures
        forall|k: int|
            0 <= k < after_answer(s, correct).items.len() ==> (#[trigger] after_answer(
                s,
                correct,
            ).items[k]).correct <= after_answer(s, correct).items[k].seen,
{
}

/// A session over fresh items, after `k` answers given in turn, stands at
/// index `k`; the first `k` items (as far as there are) were each seen once
/// and counted right exactly when their answer was, the others are untouched;
/// once there are as many answers as items, no question is left.
pub proof fn lemma_answers_on_fresh_session(items: Seq<ReviewItemView>, answers: Seq<bool>)
    requires
        forall|j: int| 0 <= j < items.len() ==> (#[trigger] items[j]).seen == 0
            && items[j].correct == 0,
    ensures
        ({
            let done = after_answers(SessionView { items, current: 0 }, answers);
            &&& done.current == answers.len()
            &&& done.items.len() == items.len()
            &&& (answers.len() >= items.len() ==> question_of(done) is None)
            &&& forall|j: int|
                0 <= j < items.len() ==> (#[trigger] done.items[j]).subject == items[j].subject
                    && done.items[j].seen == (if j < answers.len() {
                    1nat
                } else {
                    0nat
                }) && done.items[j].correct == (if j < answers.len() && answers[j] {
                    1nat
                } else {
                    0nat
                })
        }),
{
    let s = SessionView { items, current: 0 };
    lemma_after_answers_from(s, answers);
    let done = after_answers(s, answers);
    assert forall|j: int| 0 <= j < items.len() implies (#[trigger] done.items[j]).subject
        == items[j].subject && done.items[j].seen == (if j < answers.len() {
        1nat
    } else {
        0nat
    }) && done.items[j].correct == (if j < answers.len() && answers[j] {
        1nat
    } else {
        0nat
    }) by {
        if j < answers.len() {
            assert(done.items[j] == answered(items[j], answers[j - 0]));
        } else {
            assert(done.items[j] == items[j]);
        }
    }
}

} // verus!

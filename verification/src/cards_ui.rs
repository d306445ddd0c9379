//! One review pass over a batch of cards.
//!
//! A [`CardsUI`] holds the cards that are due, which of them are graded,
//! and the card that is shown. Showing the answer costs a hint; the hints
//! that are left when a card is graded are its grade.

use crate::org::{card_views, CardView, FlashCard};
use crate::sr::repeated;
use rand::rngs::ThreadRng;
use rand::Rng;
use std::collections::HashMap;
use vstd::prelude::*;

verus! {

broadcast use vstd::std_specs::hash::group_hash_axioms;

/// The hints that every card starts with.
pub const BASE_HINTS: i8 = 4;

/// The state of a review pass.
pub struct CardsUI {
    cards: Vec<FlashCard>,
    active_card: usize,
    repeat: bool,
    reveal: bool,
    done: bool,
    stats: HashMap<usize, bool>,
    grades: HashMap<usize, i8>,
}

/// Whether `m` has a value for each of the first `n` positions.
spec fn covers<V>(m: Map<usize, V>, n: nat) -> bool {
    forall|i: usize| i < n ==> #[trigger] m.contains_key(i)
}

/// The values of `m` for the first `n` positions, in order.
spec fn listed<V>(m: Map<usize, V>, n: nat) -> Seq<V> {
    Seq::new(n, |i: int| m[i as usize])
}

/// What a [`CardsUI`] holds.
pub struct SessionView {
    pub cards: Seq<CardView>,
    /// For each card, whether it is graded.
    pub graded: Seq<bool>,
    /// For each card, the hints that are left.
    pub hints: Seq<i8>,
    /// The position of the card that is shown.
    pub active: int,
    /// The answer is shown.
    pub reveal: bool,
    /// The card is being repeated, and the answer is shown.
    pub repeat: bool,
    /// Every card is graded.
    pub done: bool,
}

impl View for CardsUI {
    type V = SessionView;

    closed spec fn view(&self) -> SessionView {
        SessionView {
            cards: card_views(self.cards@),
            graded: listed(self.stats@, self.cards@.len()),
            hints: listed(self.grades@, self.cards@.len()),
            active: self.active_card as int,
            reveal: self.reveal,
            repeat: self.repeat,
            done: self.done,
        }
    }
}

impl SessionView {
    /// Every card has its flag and its hints.
    pub open spec fn wf(self) -> bool {
        self.graded.len() == self.cards.len() && self.hints.len() == self.cards.len()
    }

    /// The card that is shown exists.
    pub open spec fn has_active(self) -> bool {
        0 <= self.active < self.cards.len()
    }
}

/// The positions below `n` that are not graded, in rising order.
pub open spec fn pending_below(graded: Seq<bool>, n: int) -> Seq<int>
    decreases n,
{
    if n <= 0 {
        Seq::empty()
    } else if graded[n - 1] {
        pending_below(graded, n - 1)
    } else {
        pending_below(graded, n - 1).push(n - 1)
    }
}

/// The positions of the cards that are not graded, in rising order.
pub open spec fn pending(graded: Seq<bool>) -> Seq<int> {
    pending_below(graded, graded.len() as int)
}

/// `hints` after one more was used; it stays where it cannot fall.
pub open spec fn one_less(hints: i8) -> i8 {
    if hints > i8::MIN {
        (hints - 1) as i8
    } else {
        hints
    }
}

/// `hints` after one was given back; it stays where it cannot rise.
pub open spec fn one_more(hints: i8) -> i8 {
    if hints < i8::MAX {
        (hints + 1) as i8
    } else {
        hints
    }
}

/// The state after a new pass was loaded: at most `count` cards of `batch`,
/// none graded, each with [`BASE_HINTS`] hints.
pub open spec fn after_fetch(s: SessionView, batch: Seq<CardView>, count: int) -> SessionView {
    let n = if count <= 0 {
        0
    } else if count < batch.len() {
        count
    } else {
        batch.len() as int
    };
    SessionView {
        cards: batch.take(n),
        graded: Seq::new(n as nat, |i: int| false),
        hints: Seq::new(n as nat, |i: int| BASE_HINTS),
        ..s
    }
}

/// The state after the choice of the next card: the `pick`-th of the
/// pending cards is shown, question first. With no card pending the pass is
/// done.
pub open spec fn after_next(s: SessionView, pick: int) -> SessionView {
    let open = pending(s.graded);
    if open.len() == 0 {
        SessionView { reveal: false, repeat: false, done: true, ..s }
    } else {
        SessionView { reveal: false, repeat: false, active: open[pick], ..s }
    }
}

/// Whether `r` can follow `s` by the choice of the next card.
pub open spec fn is_next(s: SessionView, r: SessionView) -> bool {
    exists|pick: int|
        0 <= pick && (pick < pending(s.graded).len() || pending(s.graded).len() == 0)
            && r == #[trigger] after_next(s, pick)
}

/// The state after the card that is shown lost a hint.
pub open spec fn after_hint(s: SessionView) -> SessionView {
    if 0 <= s.active < s.hints.len() {
        SessionView { hints: s.hints.update(s.active, one_less(s.hints[s.active])), ..s }
    } else {
        s
    }
}

/// The state after the answer was asked for.
pub open spec fn after_reveal(s: SessionView) -> SessionView {
    SessionView { reveal: true, ..after_hint(s) }
}

/// The state after the card was marked to be repeated.
pub open spec fn after_repeat(s: SessionView) -> SessionView {
    SessionView { reveal: false, repeat: true, ..after_hint(s) }
}

/// `card` after a review graded `grade`.
pub open spec fn reviewed(card: CardView, grade: i8) -> CardView {
    CardView { stats: repeated(card.stats, grade), ..card }
}

/// The state after the card that is shown was graded: it is marked, its
/// schedule is updated with the hints that are left as the grade, and it
/// gets one hint back. Without a card that is shown nothing changes.
pub open spec fn after_grade(s: SessionView) -> SessionView {
    if s.has_active() {
        let grade = s.hints[s.active];
        SessionView {
            cards: s.cards.update(s.active, reviewed(s.cards[s.active], grade)),
            graded: s.graded.update(s.active, true),
            hints: s.hints.update(s.active, one_more(grade)),
            ..s
        }
    } else {
        s
    }
}

/// The state after a pass was put away: empty, if the pass was done, and
/// unchanged if it was not.
pub open spec fn after_reset(s: SessionView) -> SessionView {
    if s.done {
        empty_session()
    } else {
        s
    }
}

/// A pass without cards.
pub open spec fn empty_session() -> SessionView {
    SessionView {
        cards: Seq::empty(),
        graded: Seq::empty(),
        hints: Seq::empty(),
        active: 0,
        reveal: false,
        repeat: false,
        done: false,
    }
}

/// The text to show: the answer once it was asked for, else the question.
pub open spec fn shown_text(s: SessionView) -> Option<Seq<char>> {
    if s.has_active() {
        if s.reveal || s.repeat {
            Some(s.cards[s.active].answer)
        } else {
            Some(s.cards[s.active].question)
        }
    } else {
        None
    }
}

/// The document to show beside the card: that of the card, once the answer
/// was asked for.
pub open spec fn shown_document(s: SessionView) -> Option<int> {
    if s.has_active() && (s.reveal || s.repeat) {
        Some(s.cards[s.active].doc_id)
    } else {
        None
    }
}

/// `cards`, each due on `today` plus its interval.
pub open spec fn rescheduled(cards: Seq<CardView>, today: int) -> Seq<CardView> {
    Seq::new(
        cards.len(),
        |i: int|
            CardView {
                scheduled: crate::sr::due_day(today, cards[i].stats.interval as int),
                ..cards[i]
            },
    )
}

/// What is known of the pending positions below `n`: they are below `n`
/// and not graded, they rise, and every position below `n` that is not
/// graded is among them.
pub proof fn lemma_pending_below(graded: Seq<bool>, n: int)
    requires
        0 <= n <= graded.len(),
    ensures
        pending_below(graded, n).len() <= n,
        forall|k: int|
            0 <= k < pending_below(graded, n).len() ==> 0 <= #[trigger] pending_below(graded, n)[k]
                < n && !graded[pending_below(graded, n)[k]],
        forall|i: int| 0 <= i < n && !graded[i] ==> pending_below(graded, n).contains(i),
    decreases n,
{
    if n > 0 {
        lemma_pending_below(graded, n - 1);
        let before = pending_below(graded, n - 1);
        let now = pending_below(graded, n);
        if !graded[n - 1] {
            assert(now[now.len() - 1] == n - 1);
            assert forall|i: int| 0 <= i < n && !graded[i] implies now.contains(i) by {
                if i < n - 1 {
                    let k = choose|k: int| 0 <= k < before.len() && before[k] == i;
                    assert(now[k] == i);
                } else {
                    assert(now[now.len() - 1] == i);
                }
            }
        }
    }
}

/// Whether `r` can follow `s` by grading the card that is shown and
/// choosing the next one.
pub open spec fn is_update_and_next(s: SessionView, r: SessionView) -> bool {
    is_next(after_grade(s), r)
}

/// Whether `states` is the course of a pass: each state follows the one
/// before it by grading the card that is shown and choosing the next one.
pub open spec fn is_pass_course(states: Seq<SessionView>) -> bool {
    &&& states.len() > 0
    &&& states[0].wf()
    &&& forall|t: int|
        0 <= t < states.len() - 1 ==> is_update_and_next(#[trigger] states[t], states[t + 1])
}

/// The card that is chosen next is never a graded one: after the choice
/// the pass is done, or the card that is shown exists and is not graded.
/// The flags of the cards stay as they are.
pub proof fn lemma_next_is_pending(s: SessionView, r: SessionView)
    requires
        s.wf(),
        is_next(s, r),
    ensures
        r.wf(),
        r.graded == s.graded,
        r.cards == s.cards,
        r.hints == s.hints,
        r.done || (r.has_active() && !r.graded[r.active]),
        r.done <==> s.done || pending(s.graded).len() == 0,
{
    lemma_pending_below(s.graded, s.graded.len() as int);
}

/// Grading a card keeps the flags that are set, and sets that of the card
/// that is shown.
pub proof fn lemma_grade_keeps_flags(s: SessionView)
    requires
        s.wf(),
    ensures
        after_grade(s).wf(),
        after_grade(s).graded.len() == s.graded.len(),
        forall|i: int| 0 <= i < s.graded.len() && s.graded[i] ==> after_grade(s).graded[i],
        s.has_active() ==> after_grade(s).graded[s.active],
        after_grade(s).done == s.done,
{
}

/// Along the course of a pass the states stay well formed, the number of
/// cards stays, and a card that is graded stays graded.
pub proof fn lemma_course_keeps_flags(states: Seq<SessionView>, from: int, to: int)
    requires
        is_pass_course(states),
        0 <= from <= to < states.len(),
    ensures
        states[from].wf(),
        states[to].wf(),
        states[to].graded.len() == states[from].graded.len(),
        forall|i: int|
            0 <= i < states[from].graded.len() && states[from].graded[i] ==> states[to].graded[i],
        states[from].done ==> states[to].done,
    decreases to,
{
    if to > 0 {
        let before = states[to - 1];
        if from < to {
            lemma_course_keeps_flags(states, from, to - 1);
        } else {
            lemma_course_keeps_flags(states, 0, to - 1);
        }
        assert(is_update_and_next(before, states[to - 1 + 1]));
        lemma_grade_keeps_flags(before);
        lemma_next_is_pending(after_grade(before), states[to]);
    }
}

/// In the course of a pass no card that is graded is shown again before
/// the pass is done: if the card at position `i` is graded at step `from`,
/// then at any later step `to` the pass is done or another card is shown.
pub proof fn lemma_no_repeat_until_done(states: Seq<SessionView>, from: int, to: int, i: int)
    requires
        is_pass_course(states),
        0 <= from < to < states.len(),
        0 <= i < states[from].graded.len(),
        states[from].graded[i],
    ensures
        states[to].done || states[to].active != i,
        states[to].done || !states[to].graded[states[to].active],
{
    lemma_course_keeps_flags(states, from, to);
    lemma_course_keeps_flags(states, 0, to - 1);
    let before = states[to - 1];
    assert(is_update_and_next(before, states[to - 1 + 1]));
    lemma_grade_keeps_flags(before);
    lemma_next_is_pending(after_grade(before), states[to]);
}

/// The card that was just graded is not the one that is shown next, unless
/// the pass is done.
pub proof fn lemma_graded_card_leaves(s: SessionView, r: SessionView)
    requires
        s.wf(),
        s.has_active(),
        is_update_and_next(s, r),
    ensures
        r.done || r.active != s.active,
        r.graded[s.active],
{
    lemma_grade_keeps_flags(s);
    lemma_next_is_pending(after_grade(s), r);
}

/// A pass ends when its last card is graded: if every card but the one
/// that is shown is graded, then after grading it the pass is done.
pub proof fn lemma_last_card_ends_pass(s: SessionView, r: SessionView)
    requires
        s.wf(),
        s.has_active(),
        forall|i: int| 0 <= i < s.graded.len() && i != s.active ==> s.graded[i],
        is_update_and_next(s, r),
    ensures
        r.done,
{
    let g = after_grade(s);
    lemma_pending_below(g.graded, g.graded.len() as int);
    let open = pending(g.graded);
    if open.len() > 0 {
        assert(!g.graded[open[0]]);
    }
}

/// As long as a card is pending, the choice of the next card does not end
/// the pass.
pub proof fn lemma_pending_card_keeps_pass(s: SessionView, r: SessionView, i: int)
    requires
        s.wf(),
        !s.done,
        0 <= i < s.graded.len(),
        !s.graded[i],
        is_next(s, r),
    ensures
        !r.done,
        r.has_active(),
        !r.graded[r.active],
{
    lemma_pending_below(s.graded, s.graded.len() as int);
    assert(pending(s.graded).contains(i));
}

/// The random number generator of the thread, `rand::rngs::ThreadRng`. Its
/// state is not looked into.
#[verifier::external_type_specification]
#[verifier::external_body]
pub struct ExThreadRng(rand::rngs::ThreadRng);

/// Draws a number from `low` to `high`, both included, with
/// `rand::Rng::sample` on `rand::distributions::Uniform::new_inclusive`.
/// The contract claims only that the number lies in that range, and leaves
/// out the bounds on which `new_inclusive` panics.
#[verifier::external_body]
fn sample_inclusive(rng: &mut ThreadRng, low: usize, high: usize) -> (drawn: usize)
    requires
        low <= high,
    ensures
        low <= drawn <= high,
{
    rng.sample(rand::distributions::Uniform::new_inclusive(low, high))
}

impl CardsUI {
    /// Every card has its flag and its hints.
    #[verifier::type_invariant]
    closed spec fn inv(&self) -> bool {
        covers(self.stats@, self.cards@.len()) && covers(self.grades@, self.cards@.len())
    }

    /// See [`SessionView::wf`].
    pub open spec fn wf(&self) -> bool {
        self@.wf()
    }

    /// A pass without cards.
    pub fn new() -> (s: Self)
        ensures
            s@ == empty_session(),
            s.wf(),
    {
        let s = CardsUI {
            cards: Vec::new(),
            active_card: 0,
            repeat: false,
            reveal: false,
            done: false,
            stats: HashMap::new(),
            grades: HashMap::new(),
        };
        assert(s@.cards =~= Seq::empty());
        assert(s@.graded =~= Seq::empty());
        assert(s@.hints =~= Seq::empty());
        s
    }

    /// The number of cards.
    pub fn len(&self) -> (n: usize)
        ensures
            n == self@.cards.len(),
            self.wf(),
    {
        proof {
            use_type_invariant(self);
        }
        self.cards.len()
    }

    /// Whether every card is graded and the pass is over.
    pub fn is_done(&self) -> (b: bool)
        ensures
            b == self@.done,
    {
        self.done
    }

    /// Whether the answer was asked for.
    pub fn is_reveal(&self) -> (b: bool)
        ensures
            b == self@.reveal,
    {
        self.reveal
    }

    /// Whether the card is being repeated.
    pub fn is_repeat(&self) -> (b: bool)
        ensures
            b == self@.repeat,
    {
        self.repeat
    }

    /// The position of the card that is shown.
    pub fn active_card(&self) -> (i: usize)
        ensures
            i == self@.active,
    {
        self.active_card
    }

    /// The cards, as they stand.
    pub fn get_cards(&self) -> (cards: &Vec<FlashCard>)
        ensures
            card_views(cards@) == self@.cards,
    {
        &self.cards
    }

    /// Whether the card at position `i` is graded; `None` without such a
    /// card.
    pub fn is_graded(&self, i: usize) -> (b: Option<bool>)
        ensures
            b == if i < self@.graded.len() {
                Some(self@.graded[i as int])
            } else {
                None
            },
    {
        proof {
            use_type_invariant(self);
        }
        if i < self.cards.len() {
            assert(self.stats@.contains_key(i));
            match self.stats.get(&i) {
                Some(flag) => Some(*flag),
                None => None,
            }
        } else {
            None
        }
    }

    /// The hints that the card at position `i` has left; `None` without
    /// such a card.
    pub fn hints_left(&self, i: usize) -> (h: Option<i8>)
        ensures
            h == if i < self@.hints.len() {
                Some(self@.hints[i as int])
            } else {
                None
            },
    {
        proof {
            use_type_invariant(self);
        }
        if i < self.cards.len() {
            assert(self.grades@.contains_key(i));
            match self.grades.get(&i) {
                Some(hints) => Some(*hints),
                None => None,
            }
        } else {
            None
        }
    }

    /// The positions of the cards that are not graded, in rising order.
    pub fn pending_cards(&self) -> (open: Vec<usize>)
        ensures
            open@.len() == pending(self@.graded).len(),
            forall|k: int| 0 <= k < open@.len() ==> #[trigger] open@[k] == pending(self@.graded)[k],
    {
        proof {
            use_type_invariant(self);
        }
        let n = self.cards.len();
        let ghost graded = self@.graded;
        let mut open: Vec<usize> = Vec::new();
        let mut i: usize = 0;
        while i < n
            invariant
                i <= n,
                n == self.cards@.len(),
                covers(self.stats@, n as nat),
                graded == listed(self.stats@, n as nat),
                open@.len() == pending_below(graded, i as int).len(),
                forall|k: int|
                    0 <= k < open@.len() ==> #[trigger] open@[k] == pending_below(
                        graded,
                        i as int,
                    )[k],
            decreases n - i,
        {
            assert(self.stats@.contains_key(i));
            let flagged = match self.stats.get(&i) {
                Some(flag) => *flag,
                None => false,
            };
            assert(flagged == graded[i as int]);
            if !flagged {
                open.push(i);
            }
            i += 1;
        }
        open
    }

    /// Starts a pass over at most `num_cards` cards of `batch`: none is
    /// graded, and each has [`BASE_HINTS`] hints. The card that is shown
    /// keeps its position.
    pub fn fetch(&mut self, batch: Vec<FlashCard>, num_cards: i32)
        ensures
            final(self)@ == after_fetch(old(self)@, card_views(batch@), num_cards as int),
            final(self).wf(),
    {
        proof {
            use_type_invariant(&*self);
        }
        let mut batch = batch;
        let ghost given = batch@;
        let limit: usize = if num_cards <= 0 {
            0
        } else {
            num_cards as usize
        };
        batch.truncate(limit);
        let n = batch.len();
        assert(card_views(batch@) =~= card_views(given).take(n as int));
        let mut flags: HashMap<usize, bool> = HashMap::new();
        let mut hints: HashMap<usize, i8> = HashMap::new();
        let mut i: usize = 0;
        while i < n
            invariant
                i <= n,
                forall|k: usize| k < i ==> #[trigger] flags@.contains_key(k) && !flags@[k],
                forall|k: usize| k < i ==> #[trigger] hints@.contains_key(k) && hints@[k] == BASE_HINTS,
            decreases n - i,
        {
            flags.insert(i, false);
            hints.insert(i, BASE_HINTS);
            i += 1;
        }
        *self = CardsUI {
            cards: batch,
            active_card: self.active_card,
            repeat: self.repeat,
            reveal: self.reveal,
            done: self.done,
            stats: flags,
            grades: hints,
        };
        assert forall|i: int| 0 <= i < n implies !listed(self.stats@, n as nat)[i] && listed(
            self.grades@,
            n as nat,
        )[i] == BASE_HINTS by {
            assert(self.stats@.contains_key(i as usize));
            assert(self.grades@.contains_key(i as usize));
        }
        assert(self@.graded =~= Seq::new(n as nat, |i: int| false));
        assert(self@.hints =~= Seq::new(n as nat, |i: int| BASE_HINTS));
    }

    /// The text to show: the answer once it was asked for, else the
    /// question; `None` without a card that is shown.
    pub fn show(&self) -> (text: Option<&str>)
        ensures
            match text {
                Some(t) => shown_text(self@) == Some(t@),
                None => shown_text(self@) is None,
            },
    {
        proof {
            use_type_invariant(&*self);
        }
        if self.active_card < self.cards.len() {
            let card = &self.cards[self.active_card];
            if self.reveal || self.repeat {
                Some(card.get_answers())
            } else {
                Some(card.get_questions())
            }
        } else {
            None
        }
    }

    /// The number of the document to show beside the card, once the answer
    /// was asked for.
    pub fn show_content(&self) -> (doc: Option<i64>)
        ensures
            match doc {
                Some(id) => shown_document(self@) == Some(id as int),
                None => shown_document(self@) is None,
            },
    {
        proof {
            use_type_invariant(&*self);
        }
        if (self.reveal || self.repeat) && self.active_card < self.cards.len() {
            Some(self.cards[self.active_card].get_doc_id())
        } else {
            None
        }
    }

    /// Shows the `pick`-th of the pending cards, question first. With no
    /// card pending the pass is done.
    pub fn next_at(&mut self, pick: usize)
        requires
            pick < pending(old(self)@.graded).len() || pending(old(self)@.graded).len() == 0,
        ensures
            final(self)@ == after_next(old(self)@, pick as int),
            final(self).wf(),
            is_next(old(self)@, final(self)@),
    {
        proof {
            use_type_invariant(&*self);
        }
        self.reveal = false;
        self.repeat = false;
        let open = self.pending_cards();
        if open.len() == 0 {
            self.done = true;
        } else {
            self.active_card = open[pick];
        }
        assert(self@ == after_next(old(self)@, pick as int));
    }

    /// Shows one of the pending cards, drawn at random, question first. With
    /// no card pending the pass is done.
    pub fn next(&mut self, rng: &mut ThreadRng)
        ensures
            is_next(old(self)@, final(self)@),
            final(self).wf(),
    {
        proof {
            use_type_invariant(&*self);
        }
        let open = self.pending_cards();
        if open.len() == 0 {
            self.next_at(0);
        } else {
            let pick = sample_inclusive(rng, 0, open.len() - 1);
            self.next_at(pick);
        }
    }

    /// Puts a pass that is done away: no cards are left, and a new pass can
    /// be loaded. A pass that is not done stays as it is.
    pub fn reset(&mut self)
        ensures
            final(self)@ == after_reset(old(self)@),
            final(self).wf(),
    {
        proof {
            use_type_invariant(&*self);
        }
        if self.done {
            *self = CardsUI {
                cards: Vec::new(),
                active_card: 0,
                repeat: false,
                reveal: false,
                done: false,
                stats: HashMap::new(),
                grades: HashMap::new(),
            };
            assert(self@.cards =~= Seq::empty());
            assert(self@.graded =~= Seq::empty());
            assert(self@.hints =~= Seq::empty());
        }
    }

    /// Grades the card that is shown, see [`after_grade`].
    pub fn grade(&mut self)
        ensures
            final(self)@ == after_grade(old(self)@),
            final(self).wf(),
    {
        proof {
            use_type_invariant(&*self);
        }
        let at = self.active_card;
        if at < self.cards.len() {
            let ghost before = self@;
            let mut taken = CardsUI::new();
            std::mem::swap(self, &mut taken);
            let CardsUI { mut cards, active_card, repeat, reveal, done, mut stats, mut grades } =
                taken;
            assert(grades@.contains_key(at));
            let grade = match grades.get(&at) {
                Some(hints) => *hints,
                None => BASE_HINTS,
            };
            stats.insert(at, true);
            cards[at].get_stats_mut().repeat(grade);
            grades.insert(
                at,
                if grade < i8::MAX {
                    grade + 1
                } else {
                    grade
                },
            );
            *self = CardsUI { cards, active_card, repeat, reveal, done, stats, grades };
            assert(self@.cards =~= before.cards.update(
                at as int,
                reviewed(before.cards[at as int], grade),
            ));
            assert(self@.graded =~= before.graded.update(at as int, true));
            assert(self@.hints =~= before.hints.update(at as int, one_more(grade)));
        }
    }

    /// Grades the card that is shown, then shows the `pick`-th of the cards
    /// that are still pending.
    pub fn update_and_next_at(&mut self, pick: usize)
        requires
            pick < pending(after_grade(old(self)@).graded).len() || pending(
                after_grade(old(self)@).graded,
            ).len() == 0,
        ensures
            final(self)@ == after_next(after_grade(old(self)@), pick as int),
            final(self).wf(),
    {
        proof {
            use_type_invariant(&*self);
        }
        self.grade();
        self.next_at(pick);
    }

    /// Grades the card that is shown, then shows one of the cards that are
    /// still pending, drawn at random.
    pub fn update_and_next(&mut self, rng: &mut ThreadRng)
        ensures
            is_next(after_grade(old(self)@), final(self)@),
            final(self).wf(),
    {
        proof {
            use_type_invariant(&*self);
        }
        self.grade();
        self.next(rng);
    }

    /// Takes a hint from the card that is shown.
    fn use_hint(&mut self)
        ensures
            final(self)@ == after_hint(old(self)@),
            final(self).wf(),
    {
        proof {
            use_type_invariant(&*self);
        }
        let at = self.active_card;
        if at < self.cards.len() {
            let ghost before = self@;
            let mut taken = CardsUI::new();
            std::mem::swap(self, &mut taken);
            let CardsUI { cards, active_card, repeat, reveal, done, stats, mut grades } = taken;
            assert(grades@.contains_key(at));
            let hints = match grades.get(&at) {
                Some(hints) => *hints,
                None => BASE_HINTS,
            };
            grades.insert(
                at,
                if hints > i8::MIN {
                    hints - 1
                } else {
                    hints
                },
            );
            *self = CardsUI { cards, active_card, repeat, reveal, done, stats, grades };
            assert(self@.hints =~= before.hints.update(at as int, one_less(hints)));
        }
    }

    /// Shows the answer. This costs the card a hint.
    pub fn reveal_answer(&mut self)
        ensures
            final(self)@ == after_reveal(old(self)@),
            final(self).wf(),
    {
        proof {
            use_type_invariant(&*self);
        }
        self.reveal = true;
        self.use_hint();
    }

    /// Marks the card to be repeated. This costs the card a hint.
    pub fn repeat(&mut self)
        ensures
            final(self)@ == after_repeat(old(self)@),
            final(self).wf(),
    {
        proof {
            use_type_invariant(&*self);
        }
        self.reveal = false;
        self.repeat = true;
        self.use_hint();
    }

    /// Goes back to the question of a card that is being repeated.
    pub fn unset_repeat(&mut self)
        ensures
            final(self)@ == (SessionView { repeat: false, ..old(self)@ }),
            final(self).wf(),
    {
        proof {
            use_type_invariant(&*self);
        }
        self.repeat = false;
    }

    /// Gets the cards ready to be stored after a review on day `today`:
    /// each is due on `today` plus its interval.
    pub fn save_to_database(&mut self, today: i64)
        ensures
            final(self)@ == (SessionView {
                cards: rescheduled(old(self)@.cards, today as int),
                ..old(self)@
            }),
            final(self).wf(),
    {
        proof {
            use_type_invariant(&*self);
        }
        let n = self.cards.len();
        let mut i: usize = 0;
        while i < n
            invariant
                i <= n,
                n == old(self).cards@.len(),
                self.cards@.len() == n,
                covers(self.stats@, n as nat),
                covers(self.grades@, n as nat),
                self.stats == old(self).stats,
                self.grades == old(self).grades,
                self.active_card == old(self).active_card,
                self.reveal == old(self).reveal,
                self.repeat == old(self).repeat,
                self.done == old(self).done,
                forall|k: int|
                    0 <= k < i ==> (#[trigger] self.cards@[k])@ == (CardView {
                        scheduled: crate::sr::due_day(
                            today as int,
                            old(self).cards@[k]@.stats.interval as int,
                        ),
                        ..old(self).cards@[k]@
                    }),
                forall|k: int| i <= k < n ==> #[trigger] self.cards@[k] == old(self).cards@[k],
            decreases n - i,
        {
            let ghost before = self.cards@;
            self.cards[i].reschedule(today);
            assert(forall|k: int| 0 <= k < n && k != i ==> self.cards@[k] == before[k]);
            i += 1;
        }
        assert(self@.cards =~= rescheduled(old(self)@.cards, today as int));
    }
}

} // verus!

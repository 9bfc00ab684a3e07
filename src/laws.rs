use vstd::prelude::*;
use crate::model::{EventView, GameError, Phase, PlayerView};
use crate::game::{
    GameView, advanced, begin_event, begin_phase, bet_outcome, between_questions, has_player, ids_ok,
    in_phase, is_ready, joined, jump_outcome, jumped, lemma_advanced_wf, names_ok, new_player,
};
use crate::scoring::{
    balances_ok, betting_scored, credit, distance, doubled, estimation_scored, floor_one, halved, min_distance,
    selectors, versus_scored,
};
use vstd::arithmetic::div_mod::lemma_div_denominator;
use vstd::arithmetic::power2::{lemma2_to64, lemma_pow2_pos, lemma_pow2_unfold, pow2};
use crate::text::trimmed;

verus! {

/// The show after `names` joined, one after another.
pub open spec fn joined_all(s: GameView, names: Seq<Seq<char>>) -> GameView
    decreases names.len(),
{
    if names.len() == 0 {
        s
    } else {
        joined(joined_all(s, names.drop_last()), names.last())
    }
}

/// A join keeps the invariant of a show.
pub proof fn lemma_joined_wf(s: GameView, name: Seq<char>)
    requires
        s.wf(),
    ensures
        joined(s, name).wf(),
{
    let t = trimmed(name);
    if t.len() > 0 && !has_player(s.players, t) {
        let ps = s.players.push(new_player(t, s.config));
        assert forall|i: int, j: int| 0 <= i < ps.len() && 0 <= j < ps.len() && i != j
            implies (#[trigger] ps[i]).name != (#[trigger] ps[j]).name by {
            if i < s.players.len() && j < s.players.len() {
                assert(s.players[i].name != s.players[j].name);
            } else if i < s.players.len() {
                assert(s.players[i].name != t);
            } else {
                assert(s.players[j].name != t);
            }
        }
        assert forall|i: int| 0 <= i < ps.len() implies (#[trigger] ps[i]).name.len() > 0 && ps[i].money >= 0
            && ps[i].money_bet >= 0 by {
            if i < s.players.len() {
                assert(s.players[i].name.len() > 0 && s.players[i].money >= 0);
            }
        }
    }
}

/// Whatever names join, one after another, no two players share a name and
/// no name is empty.
pub proof fn lemma_joins_keep_names_unique(s: GameView, names: Seq<Seq<char>>)
    requires
        s.wf(),
    ensures
        joined_all(s, names).wf(),
        names_ok(joined_all(s, names).players),
    decreases names.len(),
{
    if names.len() > 0 {
        lemma_joins_keep_names_unique(s, names.drop_last());
        lemma_joined_wf(joined_all(s, names.drop_last()), names.last());
    }
}

/// Two names that trim alike (`"Ann "` and `"Ann"`) join as one player: the
/// second join changes nothing.
pub proof fn lemma_join_trimmed_alike(s: GameView, a: Seq<char>, b: Seq<char>)
    requires
        s.wf(),
        trimmed(a) == trimmed(b),
    ensures
        joined(joined(s, a), b) == joined(s, a),
{
    let t = trimmed(a);
    if t.len() > 0 && !has_player(s.players, t) {
        let ps = joined(s, a).players;
        assert(ps[s.players.len() as int].name == t);
        assert(has_player(ps, t));
    }
}

/// Settling a betting or a versus question leaves every balance at 1 or
/// more: a settled balance that would be 0 (or less) is stored as 1.
pub proof fn lemma_settlements_floor(ps: Seq<PlayerView>, correct: nat)
    requires
        balances_ok(ps),
    ensures
        balances_ok(betting_scored(ps, correct)),
        forall|i: int| 0 <= i < ps.len() ==> (#[trigger] betting_scored(ps, correct)[i]).money >= 1,
        forall|i: int| 0 <= i < ps.len() && ps[i].answer != correct
            ==> (#[trigger] betting_scored(ps, correct)[i]).money == floor_one(ps[i].money - ps[i].money_bet),
        forall|i: int| 0 <= i < ps.len() && ps[i].answer == correct
            ==> (#[trigger] betting_scored(ps, correct)[i]).money == floor_one(credit(ps[i].money, ps[i].money_bet)),
        balances_ok(versus_scored(ps, correct)),
        forall|i: int| 0 <= i < ps.len() ==> (#[trigger] versus_scored(ps, correct)[i]).money >= 1,
{
    assert forall|i: int| 0 <= i < ps.len() implies #[trigger] betting_scored(ps, correct)[i].money >= 0
        && betting_scored(ps, correct)[i].money_bet >= 0 by {
        assert(ps[i].money >= 0 && ps[i].money_bet >= 0);
    }
    assert forall|i: int| 0 <= i < ps.len() implies #[trigger] versus_scored(ps, correct)[i].money >= 0
        && versus_scored(ps, correct)[i].money_bet >= 0 by {
        assert(ps[i].money >= 0 && ps[i].money_bet >= 0);
    }
}

/// Halving `k` times, each time rounding down, is dividing by two to the
/// power `k` once, rounding down.
pub proof fn lemma_halved_closed(m: int, k: nat)
    requires
        m >= 0,
    ensures
        halved(m, k) == m / (pow2(k) as int),
    decreases k,
{
    lemma2_to64();
    if k == 0 {
        assert(m / 1 == m);
    } else {
        let p = pow2((k - 1) as nat) as int;
        lemma_halved_closed(m / 2, (k - 1) as nat);
        assert(halved(m, k) == halved(m / 2, (k - 1) as nat));
        lemma_pow2_unfold(k);
        lemma_pow2_pos((k - 1) as nat);
        lemma_div_denominator(m, 2, p);
        assert(m / 2 / p == m / (2 * p));
    }
}

/// Doubling `k` times, each time held within `i64`, is multiplying by two to
/// the power `k` once and holding the product within `i64`.
pub proof fn lemma_doubled_closed(m: int, k: nat)
    requires
        0 <= m <= i64::MAX,
    ensures
        doubled(m, k) == if m * pow2(k) > i64::MAX { i64::MAX as int } else { m * pow2(k) },
    decreases k,
{
    lemma2_to64();
    if k == 0 {
        assert(m * 1 == m);
    } else {
        let p = pow2((k - 1) as nat) as int;
        let m2 = if 2 * m > i64::MAX { i64::MAX as int } else { 2 * m };
        lemma_doubled_closed(m2, (k - 1) as nat);
        lemma_pow2_unfold(k);
        lemma_pow2_pos((k - 1) as nat);
        assert(m * pow2(k) == (2 * m) * p) by (nonlinear_arith)
            requires pow2(k) == 2 * p;
        if 2 * m > i64::MAX {
            assert(m2 * p >= m2) by (nonlinear_arith)
                requires p >= 1, m2 >= 0;
            assert((2 * m) * p >= 2 * m) by (nonlinear_arith)
                requires p >= 1, m >= 0;
        }
    }
}

/// A versus balance is the balance before the round times two to the power
/// (wrong pickers minus right pickers), rounded down and held within `i64`,
/// and then at least 1: the factors of all pickers compose into one.
pub proof fn lemma_versus_closed_form(ps: Seq<PlayerView>, correct: nat, j: int)
    requires
        balances_ok(ps),
        0 <= j < ps.len(),
        ps[j].money <= i64::MAX,
    ensures
        ({
            let m = ps[j].money;
            let d = selectors(ps, ps[j].name, correct, false);
            let h = selectors(ps, ps[j].name, correct, true);
            versus_scored(ps, correct)[j].money == floor_one(
                if d >= h {
                    if m * pow2((d - h) as nat) > i64::MAX { i64::MAX as int } else { m * pow2((d - h) as nat) }
                } else {
                    m / (pow2((h - d) as nat) as int)
                },
            )
        }),
{
    let d = selectors(ps, ps[j].name, correct, false);
    let h = selectors(ps, ps[j].name, correct, true);
    assert(ps[j].money >= 0);
    if d >= h {
        lemma_doubled_closed(ps[j].money, (d - h) as nat);
    } else {
        lemma_halved_closed(ps[j].money, (h - d) as nat);
    }
}

/// The least distance is that of some player, and no player is closer; the
/// estimation reward goes to exactly the players at that distance, ties
/// included.
pub proof fn lemma_estimation_rewards_closest(ps: Seq<PlayerView>, correct: nat, reward: int)
    requires
        correct <= usize::MAX,
        forall|i: int| 0 <= i < ps.len() ==> (#[trigger] ps[i]).answer <= usize::MAX,
    ensures
        forall|i: int| 0 <= i < ps.len() ==> distance((#[trigger] ps[i]).answer, correct) >= min_distance(ps, correct),
        ps.len() > 0 ==> exists|i: int| 0 <= i < ps.len()
            && distance((#[trigger] ps[i]).answer, correct) == min_distance(ps, correct),
        forall|i: int| 0 <= i < ps.len() ==> (#[trigger] estimation_scored(ps, correct, reward)[i]).money == if distance(
            ps[i].answer,
            correct,
        ) == min_distance(ps, correct) {
            credit(ps[i].money, reward)
        } else {
            ps[i].money
        },
        forall|i: int| 0 <= i < ps.len() && distance(ps[i].answer, correct) == min_distance(ps, correct)
            && ps[i].money + reward <= i64::MAX
            ==> (#[trigger] estimation_scored(ps, correct, reward)[i]).money == ps[i].money + reward,
    decreases ps.len(),
{
    if ps.len() > 0 {
        let q = ps.drop_last();
        lemma_estimation_rewards_closest(q, correct, reward);
        assert forall|i: int| 0 <= i < ps.len() implies distance((#[trigger] ps[i]).answer, correct) >= min_distance(
            ps,
            correct,
        ) by {
            if i < q.len() {
                assert(q[i] == ps[i]);
            }
        }
        if q.len() == 0 {
            assert(distance(ps[0].answer, correct) == min_distance(ps, correct));
        } else {
            let k = choose|k: int| 0 <= k < q.len() && distance((#[trigger] q[k]).answer, correct) == min_distance(q, correct);
            assert(q[k] == ps[k]);
            if distance(ps.last().answer, correct) < min_distance(q, correct) {
                assert(distance(ps[ps.len() - 1].answer, correct) == min_distance(ps, correct));
            } else {
                assert(distance(ps[k].answer, correct) == min_distance(ps, correct));
            }
        }
    }
}

/// Advancing twice with no action in between moves at most once: the second
/// advancement changes nothing.
pub proof fn lemma_advance_idempotent(s: GameView)
    requires
        s.wf(),
    ensures
        !is_ready(advanced(s).phase),
        advanced(advanced(s)) == advanced(s),
{
}

/// Advancement appends at most one event, numbered after the last one, and
/// keeps the log before it: the ids stay 0, 1, 2, ... with no gap.
pub proof fn lemma_event_ids(s: GameView)
    requires
        s.wf(),
    ensures
        ids_ok(advanced(s).events),
        advanced(s).events.len() <= s.events.len() + 1,
        advanced(s).events.subrange(0, s.events.len() as int) == s.events,
        advanced(s).events.len() == s.events.len() + 1 <==> is_ready(s.phase),
{
    lemma_advanced_wf(s);
    assert(advanced(s).events.subrange(0, s.events.len() as int) =~= s.events);
}

/// A bet outside the betting step (while answers are taken, say) is refused
/// as out of phase.
pub proof fn lemma_bet_out_of_phase(s: GameView, name: Seq<char>, amount: int)
    requires
        s.phase != Phase::BettingBetting(false),
    ensures
        bet_outcome(s, name, amount) == Err::<(), GameError>(GameError::PhaseMismatch),
{
}

/// A jump to a question out of 1 to the number of questions is refused; after
/// a jump to `n`, and the request for the next question, the next
/// advancement starts question `n` exactly.
pub proof fn lemma_jump_starts_question(s: GameView, n: int)
    requires
        s.wf(),
        between_questions(s.phase),
    ensures
        (n < 1 || n > s.questions.len()) ==> jump_outcome(s, n) == Err::<nat, GameError>(GameError::InvalidInput),
        1 <= n <= s.questions.len() ==> {
            let t = advanced(in_phase(jumped(s, n), Phase::Results(true)));
            &&& jump_outcome(s, n) == Ok::<nat, GameError>(s.current)
            &&& t.current == n
            &&& t.phase == begin_phase(s.questions[n - 1].question_type)
            &&& t.events == s.events.push(EventView { id: s.events.len(), data: begin_event(s.questions[n - 1], n as nat) })
        },
{
}

} // verus!

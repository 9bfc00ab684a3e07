use vstd::prelude::*;
use crate::model::{
    Config, Event, EventData, EventKind, EventView, Phase, Player, PlayerView, Question, QuestionType,
    copy_players, copy_strings, events_view, players_view, strings_view,
};
use crate::text::{trim_text, trimmed};
use crate::model::GameError;
use crate::draw::draw_without_replacement;
use crate::scoring::{
    balances_ok, betting_scored, estimation_scored, normal_scored, score_betting, score_estimation,
    score_normal, score_versus, versus_scored,
};

verus! {

/// The whole state of a show as plain values.
pub struct GameView {
    pub config: Config,
    pub players: Seq<PlayerView>,
    pub questions: Seq<Question>,
    pub events: Seq<EventView>,
    /// The number of the current question (0 before the first one).
    pub current: nat,
    pub phase: Phase,
}

/// The game state that every player action and every advancement works on.
pub struct Gameshow {
    config: Config,
    players: Vec<Player>,
    questions: Vec<Question>,
    events: Vec<Event>,
    current: usize,
    phase: Phase,
}

impl View for Gameshow {
    type V = GameView;

    closed spec fn view(&self) -> GameView {
        GameView {
            config: self.config,
            players: players_view(self.players@),
            questions: self.questions@,
            events: events_view(self.events@),
            current: self.current as nat,
            phase: self.phase,
        }
    }
}

/// No two players share a name, and no name is empty.
pub open spec fn names_ok(ps: Seq<PlayerView>) -> bool {
    &&& forall|i: int| 0 <= i < ps.len() ==> (#[trigger] ps[i]).name.len() > 0
    &&& forall|i: int, j: int| 0 <= i < ps.len() && 0 <= j < ps.len() && i != j
        ==> (#[trigger] ps[i]).name != (#[trigger] ps[j]).name
}

/// Each event's id is its position in the log.
pub open spec fn ids_ok(es: Seq<EventView>) -> bool {
    forall|i: int| 0 <= i < es.len() ==> (#[trigger] es[i]).id == i
}

/// Whether the step of the phase is complete.
pub open spec fn is_ready(p: Phase) -> bool {
    match p {
        Phase::Results(r) => r,
        Phase::NormalAnswering(r) => r,
        Phase::BettingBetting(r) => r,
        Phase::BettingAnswering(r) => r,
        Phase::EstimationAnswering(r) => r,
        Phase::VersusSelecting(r) => r,
        Phase::VersusAnswering(r) => r,
        Phase::GameEnding => false,
    }
}

/// Whether the phase is one in which players answer the question.
pub open spec fn is_answering(p: Phase) -> bool {
    match p {
        Phase::NormalAnswering(_) | Phase::BettingAnswering(_) | Phase::EstimationAnswering(_)
        | Phase::VersusAnswering(_) => true,
        _ => false,
    }
}

impl GameView {
    /// The invariant of a show.
    pub open spec fn wf(self) -> bool {
        &&& self.config.wf()
        &&& balances_ok(self.players)
        &&& names_ok(self.players)
        &&& ids_ok(self.events)
        &&& self.questions.len() < usize::MAX
        &&& self.current <= self.questions.len() + 1
        &&& match self.phase {
            Phase::Results(_) => self.current <= self.questions.len(),
            Phase::GameEnding => true,
            _ => 1 <= self.current <= self.questions.len(),
        }
    }

    /// The question being played.
    pub open spec fn question(self) -> Question {
        self.questions[self.current - 1]
    }

    /// The log with one more event, numbered after the last.
    pub open spec fn logged(self, data: EventData) -> Seq<EventView> {
        self.events.push(EventView { id: self.events.len(), data })
    }

    /// The state after a question has been settled with balances `after`.
    pub open spec fn settled(self, after: Seq<PlayerView>) -> GameView {
        GameView {
            players: after,
            events: self.logged(EventData::ShowResults {
                correct_answer: self.question().correct_answer as nat,
                before: self.players,
                after,
            }),
            phase: Phase::Results(false),
            ..self
        }
    }
}

/// Every player with bet, opponent and answer taken back.
pub open spec fn cleared(ps: Seq<PlayerView>) -> Seq<PlayerView> {
    Seq::new(ps.len(), |i: int| PlayerView { money_bet: 0, vs_player: Seq::empty(), answer: 0, ..ps[i] })
}

/// The event that opens question number `n`.
pub open spec fn begin_event(q: Question, n: nat) -> EventData {
    match q.question_type {
        QuestionType::NormalQuestion => EventData::BeginNormalAnswering {
            question_number: n,
            category: q.category@,
            question: q.question@,
            answers: strings_view(q.answers@),
        },
        QuestionType::BettingQuestion => EventData::BeginBettingBetting { question_number: n, category: q.category@ },
        QuestionType::EstimationQuestion => EventData::BeginEstimationAnswering {
            question_number: n,
            category: q.category@,
            question: q.question@,
        },
        QuestionType::VersusQuestion => EventData::BeginVersusSelecting { question_number: n, category: q.category@ },
    }
}

/// The phase in which a question of type `t` starts.
pub open spec fn begin_phase(t: QuestionType) -> Phase {
    match t {
        QuestionType::NormalQuestion => Phase::NormalAnswering(false),
        QuestionType::BettingQuestion => Phase::BettingBetting(false),
        QuestionType::EstimationQuestion => Phase::EstimationAnswering(false),
        QuestionType::VersusQuestion => Phase::VersusSelecting(false),
    }
}

/// One advancement: where the phase is complete, the one transition that
/// follows it; otherwise nothing.
pub open spec fn advanced(s: GameView) -> GameView {
    match s.phase {
        Phase::Results(true) => {
            let n = s.current + 1;
            if n > s.questions.len() {
                GameView {
                    events: s.logged(EventData::GameEnding { players: s.players }),
                    current: n,
                    phase: Phase::GameEnding,
                    ..s
                }
            } else {
                let q = s.questions[n - 1];
                GameView {
                    players: cleared(s.players),
                    events: s.logged(begin_event(q, n)),
                    current: n,
                    phase: begin_phase(q.question_type),
                    ..s
                }
            }
        },
        Phase::BettingBetting(true) => GameView {
            events: s.logged(EventData::BeginBettingAnswering {
                question: s.question().question@,
                answers: strings_view(s.question().answers@),
            }),
            phase: Phase::BettingAnswering(false),
            ..s
        },
        Phase::VersusSelecting(true) => GameView {
            events: s.logged(EventData::BeginVersusAnswering {
                question: s.question().question@,
                answers: strings_view(s.question().answers@),
            }),
            phase: Phase::VersusAnswering(false),
            ..s
        },
        Phase::NormalAnswering(true) => s.settled(
            normal_scored(s.players, s.question().correct_answer as nat, s.config.normal_reward as int),
        ),
        Phase::BettingAnswering(true) => s.settled(betting_scored(s.players, s.question().correct_answer as nat)),
        Phase::EstimationAnswering(true) => s.settled(
            estimation_scored(s.players, s.question().correct_answer as nat, s.config.estimation_reward as int),
        ),
        Phase::VersusAnswering(true) => s.settled(versus_scored(s.players, s.question().correct_answer as nat)),
        _ => s,
    }
}

/// Whether a player named `name` takes part.
pub open spec fn has_player(ps: Seq<PlayerView>, name: Seq<char>) -> bool {
    exists|i: int| 0 <= i < ps.len() && (#[trigger] ps[i]).name == name
}

/// The position of the player named `name`.
pub open spec fn player_index(ps: Seq<PlayerView>, name: Seq<char>) -> int {
    choose|i: int| 0 <= i < ps.len() && (#[trigger] ps[i]).name == name
}

/// A newcomer with the configured money and jokers.
pub open spec fn new_player(name: Seq<char>, c: Config) -> PlayerView {
    PlayerView {
        name,
        jokers: c.initial_jokers as nat,
        money: c.initial_money as int,
        money_bet: 0,
        vs_player: Seq::empty(),
        answer: 0,
    }
}

/// The state with the player at `i` replaced by `p`.
pub open spec fn with_player(s: GameView, i: int, p: PlayerView) -> GameView {
    GameView { players: s.players.update(i, p), ..s }
}

/// Every player has bet.
pub open spec fn all_bet(ps: Seq<PlayerView>) -> bool {
    forall|i: int| 0 <= i < ps.len() ==> (#[trigger] ps[i]).money_bet >= 1
}

/// Every player has picked an opponent.
pub open spec fn all_selected(ps: Seq<PlayerView>) -> bool {
    forall|i: int| 0 <= i < ps.len() ==> (#[trigger] ps[i]).vs_player.len() > 0
}

/// Every player has answered.
pub open spec fn all_answered(ps: Seq<PlayerView>) -> bool {
    forall|i: int| 0 <= i < ps.len() ==> (#[trigger] ps[i]).answer >= 1
}

/// The outcome of a join request for `name`.
pub open spec fn joined(s: GameView, name: Seq<char>) -> GameView {
    let t = trimmed(name);
    if t.len() == 0 || has_player(s.players, t) {
        s
    } else {
        GameView { players: s.players.push(new_player(t, s.config)), ..s }
    }
}

/// What a bet of `amount` by `name` gives.
pub open spec fn bet_outcome(s: GameView, name: Seq<char>, amount: int) -> Result<(), GameError> {
    if s.phase != Phase::BettingBetting(false) {
        Err(GameError::PhaseMismatch)
    } else if !has_player(s.players, name) {
        Err(GameError::NotFound)
    } else if amount < 1 || amount > s.players[player_index(s.players, name)].money {
        Err(GameError::InvalidInput)
    } else {
        Ok(())
    }
}

/// The state after a bet of `amount` by `name` is taken; the betting step is
/// complete once every player has bet.
pub open spec fn bet_placed(s: GameView, name: Seq<char>, amount: int) -> GameView {
    let i = player_index(s.players, name);
    let ps = s.players.update(i, PlayerView { money_bet: amount, ..s.players[i] });
    GameView { players: ps, phase: if all_bet(ps) { Phase::BettingBetting(true) } else { s.phase }, ..s }
}

/// What picking `target` as opponent of `name` gives.
pub open spec fn select_outcome(s: GameView, name: Seq<char>, target: Seq<char>) -> Result<(), GameError> {
    if s.phase != Phase::VersusSelecting(false) {
        Err(GameError::PhaseMismatch)
    } else if name == target {
        Err(GameError::InvalidInput)
    } else if !has_player(s.players, name) || !has_player(s.players, target) {
        Err(GameError::NotFound)
    } else {
        Ok(())
    }
}

/// The state after `name` picked `target`; the step is complete once every
/// player has picked.
pub open spec fn opponent_selected(s: GameView, name: Seq<char>, target: Seq<char>) -> GameView {
    let i = player_index(s.players, name);
    let ps = s.players.update(i, PlayerView { vs_player: target, ..s.players[i] });
    GameView { players: ps, phase: if all_selected(ps) { Phase::VersusSelecting(true) } else { s.phase }, ..s }
}

/// Whether answers are being taken.
pub open spec fn answers_open(p: Phase) -> bool {
    is_answering(p) && !is_ready(p)
}

/// What the answer `answer` of `name` gives.
pub open spec fn answer_outcome(s: GameView, name: Seq<char>, answer: nat) -> Result<(), GameError> {
    if !answers_open(s.phase) {
        Err(GameError::PhaseMismatch)
    } else if answer < 1 {
        Err(GameError::InvalidInput)
    } else if !has_player(s.players, name) {
        Err(GameError::NotFound)
    } else {
        Ok(())
    }
}

/// The state after `name` answered; the step is complete once every player
/// has answered.
pub open spec fn answered(s: GameView, name: Seq<char>, answer: nat) -> GameView {
    let i = player_index(s.players, name);
    let ps = s.players.update(i, PlayerView { answer, ..s.players[i] });
    GameView { players: ps, phase: if all_answered(ps) { ready_version(s.phase) } else { s.phase }, ..s }
}

/// What a fifty-fifty request of `name` gives.
pub open spec fn joker_outcome(s: GameView, name: Seq<char>) -> Result<(), GameError> {
    if s.phase != Phase::NormalAnswering(false) && s.phase != Phase::BettingAnswering(false) {
        Err(GameError::PhaseMismatch)
    } else if !has_player(s.players, name) {
        Err(GameError::NotFound)
    } else if s.players[player_index(s.players, name)].jokers == 0 {
        Err(GameError::NoJokersLeft)
    } else {
        Ok(())
    }
}

/// The state after `name` spent a joker.
pub open spec fn joker_spent(s: GameView, name: Seq<char>) -> GameView {
    let i = player_index(s.players, name);
    with_player(s, i, PlayerView { jokers: (s.players[i].jokers - 1) as nat, ..s.players[i] })
}

/// Two different option numbers out of 1 to 4, neither of them `correct`.
pub open spec fn two_wrong_options(v: Seq<usize>, correct: nat) -> bool {
    &&& v.len() == 2
    &&& v[0] != v[1]
    &&& forall|k: int| 0 <= k < 2 ==> 1 <= #[trigger] v[k] <= 4 && v[k] != correct
}

/// What removing `name` gives.
pub open spec fn kick_outcome(s: GameView, name: Seq<char>) -> Result<(), GameError> {
    if has_player(s.players, name) { Ok(()) } else { Err(GameError::NotFound) }
}

/// The state without the player `name`.
pub open spec fn kicked(s: GameView, name: Seq<char>) -> GameView {
    GameView { players: s.players.remove(player_index(s.players, name)), ..s }
}

/// What giving `amount` (taking, where negative) to `name` gives: the new
/// balance, which may be neither negative nor beyond `i64`.
pub open spec fn gift_outcome(s: GameView, name: Seq<char>, amount: int) -> Result<int, GameError> {
    if !has_player(s.players, name) {
        Err(GameError::NotFound)
    } else {
        let m = s.players[player_index(s.players, name)].money + amount;
        if m < 0 || m > i64::MAX { Err(GameError::InvalidInput) } else { Ok(m) }
    }
}

/// The state where `name` holds `money`.
pub open spec fn money_set(s: GameView, name: Seq<char>, money: int) -> GameView {
    let i = player_index(s.players, name);
    with_player(s, i, PlayerView { money, ..s.players[i] })
}

/// The state where `name` holds `jokers` jokers.
pub open spec fn jokers_set(s: GameView, name: Seq<char>, jokers: nat) -> GameView {
    let i = player_index(s.players, name);
    with_player(s, i, PlayerView { jokers, ..s.players[i] })
}

/// The state with only the phase changed.
pub open spec fn in_phase(s: GameView, p: Phase) -> GameView {
    GameView { phase: p, ..s }
}

/// Whether the moderator may jump or reload: between questions or after the end.
pub open spec fn between_questions(p: Phase) -> bool {
    p == Phase::Results(false) || p == Phase::GameEnding
}

/// What a jump to question `n` gives: the number of the question before.
pub open spec fn jump_outcome(s: GameView, n: int) -> Result<nat, GameError> {
    if !between_questions(s.phase) {
        Err(GameError::PhaseMismatch)
    } else if n < 1 || n > s.questions.len() {
        Err(GameError::InvalidInput)
    } else {
        Ok(s.current)
    }
}

/// The state from which the next advancement starts question `n`.
pub open spec fn jumped(s: GameView, n: int) -> GameView {
    GameView { current: (n - 1) as nat, phase: Phase::Results(false), ..s }
}

proof fn lemma_index_unique(ps: Seq<PlayerView>, i: int)
    requires
        names_ok(ps),
        0 <= i < ps.len(),
    ensures
        has_player(ps, ps[i].name),
        player_index(ps, ps[i].name) == i,
{
    assert(has_player(ps, ps[i].name));
}

proof fn lemma_same_names_wf(s: GameView, t: GameView)
    requires
        s.wf(),
        t.config == s.config,
        t.events == s.events,
        t.questions == s.questions,
        t.current == s.current,
        t.phase == s.phase || (is_ready(t.phase) && ready_version(s.phase) == t.phase),
        balances_ok(t.players),
        t.players.len() == s.players.len(),
        forall|i: int| 0 <= i < s.players.len() ==> (#[trigger] t.players[i]).name == s.players[i].name,
    ensures
        t.wf(),
{
    assert forall|i: int, j: int| 0 <= i < t.players.len() && 0 <= j < t.players.len() && i != j
        implies (#[trigger] t.players[i]).name != (#[trigger] t.players[j]).name by {
        assert(s.players[i].name != s.players[j].name);
    }
    assert forall|i: int| 0 <= i < t.players.len() implies (#[trigger] t.players[i]).name.len() > 0 by {
        assert(s.players[i].name.len() > 0);
    }
}

/// The same step, marked complete.
pub open spec fn ready_version(p: Phase) -> Phase {
    match p {
        Phase::Results(_) => Phase::Results(true),
        Phase::NormalAnswering(_) => Phase::NormalAnswering(true),
        Phase::BettingBetting(_) => Phase::BettingBetting(true),
        Phase::BettingAnswering(_) => Phase::BettingAnswering(true),
        Phase::EstimationAnswering(_) => Phase::EstimationAnswering(true),
        Phase::VersusSelecting(_) => Phase::VersusSelecting(true),
        Phase::VersusAnswering(_) => Phase::VersusAnswering(true),
        Phase::GameEnding => Phase::GameEnding,
    }
}

proof fn lemma_rescored_wf(s: GameView, after: Seq<PlayerView>)
    requires
        s.wf(),
        after.len() == s.players.len(),
        forall|i: int| 0 <= i < after.len() ==> (#[trigger] after[i]).name == s.players[i].name
            && after[i].money >= 0 && after[i].money_bet >= 0,
    ensures
        (GameView { players: after, ..s }).wf(),
{
    assert forall|i: int, j: int| 0 <= i < after.len() && 0 <= j < after.len() && i != j
        implies (#[trigger] after[i]).name != (#[trigger] after[j]).name by {
        assert(s.players[i].name != s.players[j].name);
    }
    assert forall|i: int| 0 <= i < after.len() implies (#[trigger] after[i]).name.len() > 0 by {
        assert(s.players[i].name.len() > 0);
    }
}

/// Advancement keeps the invariant of a show: names stay unique, balances
/// stay non-negative, and each event's id stays its position in the log.
pub proof fn lemma_advanced_wf(s: GameView)
    requires
        s.wf(),
    ensures
        advanced(s).wf(),
{
    let t = advanced(s);
    assert forall|i: int| 0 <= i < t.events.len() implies (#[trigger] t.events[i]).id == i by {
        if i < s.events.len() {
            assert(t.events[i] == s.events[i]);
        }
    }
    let c = if s.current >= 1 && s.current <= s.questions.len() { s.question().correct_answer as nat } else { 0 };
    match s.phase {
        Phase::Results(true) => {
            if s.current + 1 <= s.questions.len() {
                lemma_rescored_wf(s, cleared(s.players));
            }
        },
        Phase::NormalAnswering(true) => {
            let a = normal_scored(s.players, c, s.config.normal_reward as int);
            assert forall|i: int| 0 <= i < a.len() implies (#[trigger] a[i]).name == s.players[i].name
                && a[i].money >= 0 && a[i].money_bet >= 0 by {
                assert(s.players[i].money >= 0 && s.players[i].money_bet >= 0);
            }
            lemma_rescored_wf(s, a);
        },
        Phase::BettingAnswering(true) => {
            let a = betting_scored(s.players, c);
            assert forall|i: int| 0 <= i < a.len() implies (#[trigger] a[i]).name == s.players[i].name
                && a[i].money >= 0 && a[i].money_bet >= 0 by {
                assert(s.players[i].money >= 0 && s.players[i].money_bet >= 0);
            }
            lemma_rescored_wf(s, a);
        },
        Phase::EstimationAnswering(true) => {
            let a = estimation_scored(s.players, c, s.config.estimation_reward as int);
            assert forall|i: int| 0 <= i < a.len() implies (#[trigger] a[i]).name == s.players[i].name
                && a[i].money >= 0 && a[i].money_bet >= 0 by {
                assert(s.players[i].money >= 0 && s.players[i].money_bet >= 0);
            }
            lemma_rescored_wf(s, a);
        },
        Phase::VersusAnswering(true) => {
            let a = versus_scored(s.players, c);
            assert forall|i: int| 0 <= i < a.len() implies (#[trigger] a[i]).name == s.players[i].name
                && a[i].money >= 0 && a[i].money_bet >= 0 by {
                assert(s.players[i].money >= 0 && s.players[i].money_bet >= 0);
            }
            lemma_rescored_wf(s, a);
        },
        _ => {},
    }
}

fn clear_round(players: &mut Vec<Player>)
    ensures
        players_view(final(players)@) == cleared(players_view(old(players)@)),
{
    let ghost ps = players_view(players@);
    let mut r: Vec<Player> = Vec::new();
    let mut i: usize = 0;
    while i < players.len()
        invariant
            i <= players.len(),
            ps == players_view(players@),
            r@.len() == i,
            forall|k: int| 0 <= k < i ==> (#[trigger] r@[k])@ == cleared(ps)[k],
        decreases players.len() - i,
    {
        let mut p = players[i].duplicate();
        p.money_bet = 0;
        p.vs_player = String::new();
        p.answer = 0;
        r.push(p);
        i = i + 1;
    }
    assert(players_view(r@) =~= cleared(ps));
    *players = r;
}

fn begin_kind(q: &Question, n: usize) -> (r: EventKind)
    ensures
        r@ == begin_event(*q, n as nat),
{
    match q.question_type {
        QuestionType::NormalQuestion => EventKind::BeginNormalAnswering {
            question_number: n,
            category: q.category.clone(),
            question: q.question.clone(),
            answers: copy_strings(&q.answers),
        },
        QuestionType::BettingQuestion => EventKind::BeginBettingBetting { question_number: n, category: q.category.clone() },
        QuestionType::EstimationQuestion => EventKind::BeginEstimationAnswering {
            question_number: n,
            category: q.category.clone(),
            question: q.question.clone(),
        },
        QuestionType::VersusQuestion => EventKind::BeginVersusSelecting { question_number: n, category: q.category.clone() },
    }
}

fn begin_phase_of(t: QuestionType) -> (r: Phase)
    ensures
        r == begin_phase(t),
{
    match t {
        QuestionType::NormalQuestion => Phase::NormalAnswering(false),
        QuestionType::BettingQuestion => Phase::BettingBetting(false),
        QuestionType::EstimationQuestion => Phase::EstimationAnswering(false),
        QuestionType::VersusQuestion => Phase::VersusSelecting(false),
    }
}

impl Gameshow {
    /// A show with no player, the given questions, an empty log, no question
    /// started, waiting in the results phase.
    pub fn new(config: Config, questions: Vec<Question>) -> (r: Gameshow)
        requires
            config.wf(),
            questions@.len() < usize::MAX,
        ensures
            r@ == (GameView {
                config,
                players: Seq::empty(),
                questions: questions@,
                events: Seq::empty(),
                current: 0,
                phase: Phase::Results(false),
            }),
            r@.wf(),
    {
        let r = Gameshow { config, players: Vec::new(), questions, events: Vec::new(), current: 0, phase: Phase::Results(false) };
        assert(players_view(r.players@) =~= Seq::empty());
        assert(events_view(r.events@) =~= Seq::empty());
        r
    }

    /// Appends an event numbered after the last one.
    fn log(&mut self, kind: EventKind)
        ensures
            final(self)@ == (GameView { events: old(self)@.logged(kind@), ..old(self)@ }),
    {
        let id = self.events.len();
        self.events.push(Event { id, kind });
        assert(events_view(self.events@) =~= old(self)@.logged(kind@));
    }

    /// Settles the current question by its type and logs the results.
    fn settle(&mut self)
        requires
            old(self)@.wf(),
            is_answering(old(self).phase),
        ensures
            final(self)@ == old(self)@.settled(match old(self).phase {
                Phase::NormalAnswering(_) => normal_scored(
                    old(self)@.players, old(self)@.question().correct_answer as nat, old(self).config.normal_reward as int),
                Phase::BettingAnswering(_) => betting_scored(old(self)@.players, old(self)@.question().correct_answer as nat),
                Phase::EstimationAnswering(_) => estimation_scored(
                    old(self)@.players, old(self)@.question().correct_answer as nat, old(self).config.estimation_reward as int),
                _ => versus_scored(old(self)@.players, old(self)@.question().correct_answer as nat),
            }),
    {
        let correct = self.questions[self.current - 1].correct_answer;
        let before = copy_players(&self.players);
        match self.phase {
            Phase::NormalAnswering(_) => score_normal(&mut self.players, correct, self.config.normal_reward),
            Phase::BettingAnswering(_) => score_betting(&mut self.players, correct),
            Phase::EstimationAnswering(_) => score_estimation(&mut self.players, correct, self.config.estimation_reward),
            _ => score_versus(&mut self.players, correct),
        }
        let after = copy_players(&self.players);
        self.log(EventKind::ShowResults { correct_answer: correct, before, after });
        self.phase = Phase::Results(false);
    }

    /// The position of the player named `name`, if any.
    fn find_player(&self, name: &String) -> (r: Option<usize>)
        requires
            self@.wf(),
        ensures
            match r {
                Some(i) => i < self@.players.len() && i == player_index(self@.players, name@)
                    && has_player(self@.players, name@),
                None => !has_player(self@.players, name@),
            },
    {
        let ghost ps = self@.players;
        let mut i: usize = 0;
        while i < self.players.len()
            invariant
                i <= self.players.len(),
                ps == self@.players,
                self@.wf(),
                forall|k: int| 0 <= k < i ==> (#[trigger] ps[k]).name != name@,
            decreases self.players.len() - i,
        {
            assert(ps[i as int] == self.players@[i as int]@);
            if self.players[i].name == *name {
                proof { lemma_index_unique(ps, i as int); }
                return Some(i);
            }
            i = i + 1;
        }
        None
    }

    /// Puts `p` in the place of the player at `i`.
    fn replace_player(&mut self, i: usize, p: Player)
        requires
            i < old(self)@.players.len(),
        ensures
            final(self)@ == with_player(old(self)@, i as int, p@),
    {
        let ghost pv = p@;
        self.players.set(i, p);
        assert(players_view(self.players@) =~= old(self)@.players.update(i as int, pv));
    }

    /// Whether every player has bet.
    fn check_all_bet(&self) -> (r: bool)
        ensures
            r == all_bet(self@.players),
    {
        let mut i: usize = 0;
        while i < self.players.len()
            invariant
                i <= self.players.len(),
                forall|k: int| 0 <= k < i ==> (#[trigger] self@.players[k]).money_bet >= 1,
            decreases self.players.len() - i,
        {
            assert(self@.players[i as int] == self.players@[i as int]@);
            if self.players[i].money_bet < 1 {
                return false;
            }
            i = i + 1;
        }
        true
    }

    /// Whether every player has picked an opponent.
    fn check_all_selected(&self) -> (r: bool)
        ensures
            r == all_selected(self@.players),
    {
        let mut i: usize = 0;
        while i < self.players.len()
            invariant
                i <= self.players.len(),
                forall|k: int| 0 <= k < i ==> (#[trigger] self@.players[k]).vs_player.len() > 0,
            decreases self.players.len() - i,
        {
            assert(self@.players[i as int] == self.players@[i as int]@);
            if self.players[i].vs_player.as_str().is_empty() {
                return false;
            }
            i = i + 1;
        }
        true
    }

    /// Whether every player has answered.
    fn check_all_answered(&self) -> (r: bool)
        ensures
            r == all_answered(self@.players),
    {
        let mut i: usize = 0;
        while i < self.players.len()
            invariant
                i <= self.players.len(),
                forall|k: int| 0 <= k < i ==> (#[trigger] self@.players[k]).answer >= 1,
            decreases self.players.len() - i,
        {
            assert(self@.players[i as int] == self.players@[i as int]@);
            if self.players[i].answer < 1 {
                return false;
            }
            i = i + 1;
        }
        true
    }

    /// Adds a player under the trimmed `name`, with the configured money and
    /// jokers, unless a player of that name takes part already. Returns the
    /// trimmed name; an empty one is refused.
    pub fn join(&mut self, name: &str) -> (r: Result<String, GameError>)
        requires
            old(self)@.wf(),
        ensures
            final(self)@.wf(),
            final(self)@ == joined(old(self)@, name@),
            match r {
                Ok(n) => n@ == trimmed(name@) && n@.len() > 0,
                Err(e) => e == GameError::InvalidInput && trimmed(name@).len() == 0,
            },
    {
        let t = trim_text(name);
        if t.as_str().is_empty() {
            return Err(GameError::InvalidInput);
        }
        match self.find_player(&t) {
            Some(_) => {},
            None => {
                let p = Player {
                    name: t.clone(),
                    jokers: self.config.initial_jokers,
                    money: self.config.initial_money,
                    money_bet: 0,
                    vs_player: String::new(),
                    answer: 0,
                };
                let ghost s = self@;
                self.players.push(p);
                assert(self@.players =~= s.players.push(new_player(t@, s.config)));
                assert forall|i: int, j: int| 0 <= i < self@.players.len() && 0 <= j < self@.players.len() && i != j
                    implies (#[trigger] self@.players[i]).name != (#[trigger] self@.players[j]).name by {
                    if i < s.players.len() && j < s.players.len() {
                        assert(s.players[i].name != s.players[j].name);
                    } else if i < s.players.len() {
                        assert(s.players[i].name != t@);
                    } else {
                        assert(s.players[j].name != t@);
                    }
                }
            },
        }
        Ok(t)
    }

    /// Takes a bet of `amount` from the player `name`; legal only while bets
    /// are open. The betting step is complete once every player has bet.
    pub fn place_bet(&mut self, name: &str, amount: i64) -> (r: Result<(), GameError>)
        requires
            old(self)@.wf(),
        ensures
            final(self)@.wf(),
            r == bet_outcome(old(self)@, name@, amount as int),
            final(self)@ == match r {
                Ok(_) => bet_placed(old(self)@, name@, amount as int),
                Err(_) => old(self)@,
            },
    {
        if self.phase != Phase::BettingBetting(false) {
            return Err(GameError::PhaseMismatch);
        }
        let name = name.to_owned();
        let i = match self.find_player(&name) {
            Some(i) => i,
            None => return Err(GameError::NotFound),
        };
        if amount < 1 || self.players[i].money < amount {
            return Err(GameError::InvalidInput);
        }
        let ghost s = self@;
        let mut p = self.players[i].duplicate();
        p.money_bet = amount;
        self.replace_player(i, p);
        if self.check_all_bet() {
            self.phase = Phase::BettingBetting(true);
        }
        proof { lemma_same_names_wf(s, self@); }
        assert(self@ == bet_placed(s, name@, amount as int));
        Ok(())
    }

    /// Records `target` as the opponent picked by `name`; legal only while
    /// opponents are picked. The step is complete once every player has picked.
    pub fn select_opponent(&mut self, name: &str, target: &str) -> (r: Result<(), GameError>)
        requires
            old(self)@.wf(),
        ensures
            final(self)@.wf(),
            r == select_outcome(old(self)@, name@, target@),
            final(self)@ == match r {
                Ok(_) => opponent_selected(old(self)@, name@, target@),
                Err(_) => old(self)@,
            },
    {
        if self.phase != Phase::VersusSelecting(false) {
            return Err(GameError::PhaseMismatch);
        }
        let name = name.to_owned();
        let target = target.to_owned();
        if name == target {
            return Err(GameError::InvalidInput);
        }
        let i = match self.find_player(&name) {
            Some(i) => i,
            None => return Err(GameError::NotFound),
        };
        if self.find_player(&target).is_none() {
            return Err(GameError::NotFound);
        }
        let ghost s = self@;
        let mut p = self.players[i].duplicate();
        p.vs_player = target;
        self.replace_player(i, p);
        if self.check_all_selected() {
            self.phase = Phase::VersusSelecting(true);
        }
        proof { lemma_same_names_wf(s, self@); }
        assert(self@ == opponent_selected(s, name@, target@));
        Ok(())
    }

    /// Records the answer `answer` (1-based) of `name`; legal only while
    /// answers are taken. The step is complete once every player has answered.
    pub fn submit_answer(&mut self, name: &str, answer: usize) -> (r: Result<(), GameError>)
        requires
            old(self)@.wf(),
        ensures
            final(self)@.wf(),
            r == answer_outcome(old(self)@, name@, answer as nat),
            final(self)@ == match r {
                Ok(_) => answered(old(self)@, name@, answer as nat),
                Err(_) => old(self)@,
            },
    {
        match self.phase {
            Phase::NormalAnswering(false) | Phase::BettingAnswering(false) | Phase::EstimationAnswering(false)
            | Phase::VersusAnswering(false) => {},
            _ => return Err(GameError::PhaseMismatch),
        }
        if answer < 1 {
            return Err(GameError::InvalidInput);
        }
        let name = name.to_owned();
        let i = match self.find_player(&name) {
            Some(i) => i,
            None => return Err(GameError::NotFound),
        };
        let ghost s = self@;
        let mut p = self.players[i].duplicate();
        p.answer = answer;
        self.replace_player(i, p);
        if self.check_all_answered() {
            self.phase = match self.phase {
                Phase::NormalAnswering(_) => Phase::NormalAnswering(true),
                Phase::BettingAnswering(_) => Phase::BettingAnswering(true),
                Phase::EstimationAnswering(_) => Phase::EstimationAnswering(true),
                _ => Phase::VersusAnswering(true),
            };
        }
        proof { lemma_same_names_wf(s, self@); }
        assert(self@ == answered(s, name@, answer as nat));
        Ok(())
    }

    /// Spends a joker of `name` on the current question, legal only while a
    /// normal or betting question is answered, and returns two different
    /// wrong option numbers out of 1 to 4, drawn at random.
    pub fn request_fifty_fifty(&mut self, name: &str) -> (r: Result<Vec<usize>, GameError>)
        requires
            old(self)@.wf(),
        ensures
            final(self)@.wf(),
            match r {
                Ok(v) => joker_outcome(old(self)@, name@) == Ok::<(), GameError>(())
                    && final(self)@ == joker_spent(old(self)@, name@)
                    && two_wrong_options(v@, old(self)@.question().correct_answer as nat),
                Err(e) => joker_outcome(old(self)@, name@) == Err::<(), GameError>(e) && final(self)@ == old(self)@,
            },
    {
        if self.phase != Phase::NormalAnswering(false) && self.phase != Phase::BettingAnswering(false) {
            return Err(GameError::PhaseMismatch);
        }
        let name = name.to_owned();
        let i = match self.find_player(&name) {
            Some(i) => i,
            None => return Err(GameError::NotFound),
        };
        if self.players[i].jokers == 0 {
            return Err(GameError::NoJokersLeft);
        }
        let correct = self.questions[self.current - 1].correct_answer;
        let mut pool: Vec<usize> = Vec::new();
        let mut k: usize = 1;
        while k <= 4
            invariant
                1 <= k <= 5,
                pool@.len() == k - 1 - (if 1 <= correct < k { 1int } else { 0int }),
                forall|a: int| 0 <= a < pool@.len() ==> 1 <= #[trigger] pool@[a] < k && pool@[a] != correct,
                forall|a: int, b: int| 0 <= a < b < pool@.len() ==> #[trigger] pool@[a] < #[trigger] pool@[b],
            decreases 5 - k,
        {
            if k != correct {
                pool.push(k);
            }
            k = k + 1;
        }
        assert(pool@.no_duplicates()) by {
            assert forall|a: int, b: int| 0 <= a < pool@.len() && 0 <= b < pool@.len() && a != b
                implies pool@[a] != pool@[b] by {
                if a < b { assert(pool@[a] < pool@[b]); } else { assert(pool@[b] < pool@[a]); }
            }
        }
        let drawn = draw_without_replacement(&pool, 2);
        assert(drawn@[0] != drawn@[1]);
        assert forall|a: int| 0 <= a < 2 implies 1 <= #[trigger] drawn@[a] <= 4 && drawn@[a] != correct by {
            assert(pool@.contains(drawn@[a]));
        }
        let ghost s = self@;
        let mut p = self.players[i].duplicate();
        p.jokers = p.jokers - 1;
        self.replace_player(i, p);
        proof { lemma_same_names_wf(s, self@); }
        Ok(drawn)
    }

    /// Removes the player `name`.
    pub fn kick(&mut self, name: &str) -> (r: Result<(), GameError>)
        requires
            old(self)@.wf(),
        ensures
            final(self)@.wf(),
            r == kick_outcome(old(self)@, name@),
            final(self)@ == match r {
                Ok(_) => kicked(old(self)@, name@),
                Err(_) => old(self)@,
            },
    {
        let name = name.to_owned();
        let i = match self.find_player(&name) {
            Some(i) => i,
            None => return Err(GameError::NotFound),
        };
        let ghost s = self@;
        self.players.remove(i);
        assert(self@.players =~= s.players.remove(i as int));
        assert forall|a: int, b: int| 0 <= a < self@.players.len() && 0 <= b < self@.players.len() && a != b
            implies (#[trigger] self@.players[a]).name != (#[trigger] self@.players[b]).name by {
            let a0 = if a < i { a } else { a + 1 };
            let b0 = if b < i { b } else { b + 1 };
            assert(s.players[a0].name != s.players[b0].name);
        }
        assert forall|a: int| 0 <= a < self@.players.len() implies (#[trigger] self@.players[a]).name.len() > 0
            && self@.players[a].money >= 0 && self@.players[a].money_bet >= 0 by {
            let a0 = if a < i { a } else { a + 1 };
            assert(s.players[a0].name.len() > 0);
            assert(s.players[a0].money >= 0);
        }
        Ok(())
    }

    /// Gives `amount` to `name` (takes it, where negative) and returns the new
    /// balance; a balance that would be negative or beyond `i64` is refused.
    pub fn give_money(&mut self, name: &str, amount: i64) -> (r: Result<i64, GameError>)
        requires
            old(self)@.wf(),
        ensures
            final(self)@.wf(),
            match r {
                Ok(m) => gift_outcome(old(self)@, name@, amount as int) == Ok::<int, GameError>(m as int)
                    && final(self)@ == money_set(old(self)@, name@, m as int),
                Err(e) => gift_outcome(old(self)@, name@, amount as int) == Err::<int, GameError>(e)
                    && final(self)@ == old(self)@,
            },
    {
        let name = name.to_owned();
        let i = match self.find_player(&name) {
            Some(i) => i,
            None => return Err(GameError::NotFound),
        };
        let m = match self.players[i].money.checked_add(amount) {
            Some(m) => m,
            None => return Err(GameError::InvalidInput),
        };
        if m < 0 {
            return Err(GameError::InvalidInput);
        }
        let ghost s = self@;
        let mut p = self.players[i].duplicate();
        p.money = m;
        self.replace_player(i, p);
        proof { lemma_same_names_wf(s, self@); }
        Ok(m)
    }

    /// Sets the number of jokers of `name` and returns it.
    pub fn set_jokers(&mut self, name: &str, jokers: usize) -> (r: Result<usize, GameError>)
        requires
            old(self)@.wf(),
        ensures
            final(self)@.wf(),
            match r {
                Ok(j) => has_player(old(self)@.players, name@) && j == jokers
                    && final(self)@ == jokers_set(old(self)@, name@, jokers as nat),
                Err(e) => !has_player(old(self)@.players, name@) && e == GameError::NotFound
                    && final(self)@ == old(self)@,
            },
    {
        let name = name.to_owned();
        let i = match self.find_player(&name) {
            Some(i) => i,
            None => return Err(GameError::NotFound),
        };
        let ghost s = self@;
        let mut p = self.players[i].duplicate();
        p.jokers = jokers;
        self.replace_player(i, p);
        proof { lemma_same_names_wf(s, self@); }
        Ok(jokers)
    }

    /// Closes the betting or the picking of opponents early.
    pub fn force_betting_or_selecting_ready(&mut self) -> (r: Result<(), GameError>)
        requires
            old(self)@.wf(),
        ensures
            final(self)@.wf(),
            match old(self)@.phase {
                Phase::BettingBetting(false) => r == Ok::<(), GameError>(())
                    && final(self)@ == in_phase(old(self)@, Phase::BettingBetting(true)),
                Phase::VersusSelecting(false) => r == Ok::<(), GameError>(())
                    && final(self)@ == in_phase(old(self)@, Phase::VersusSelecting(true)),
                _ => r == Err::<(), GameError>(GameError::PhaseMismatch) && final(self)@ == old(self)@,
            },
    {
        match self.phase {
            Phase::BettingBetting(false) => {
                self.phase = Phase::BettingBetting(true);
                Ok(())
            },
            Phase::VersusSelecting(false) => {
                self.phase = Phase::VersusSelecting(true);
                Ok(())
            },
            _ => Err(GameError::PhaseMismatch),
        }
    }

    /// Closes the answering early.
    pub fn force_answering_ready(&mut self) -> (r: Result<(), GameError>)
        requires
            old(self)@.wf(),
        ensures
            final(self)@.wf(),
            if answers_open(old(self)@.phase) {
                r == Ok::<(), GameError>(()) && final(self)@ == in_phase(old(self)@, ready_version(old(self)@.phase))
            } else {
                r == Err::<(), GameError>(GameError::PhaseMismatch) && final(self)@ == old(self)@
            },
    {
        match self.phase {
            Phase::NormalAnswering(false) => { self.phase = Phase::NormalAnswering(true); },
            Phase::BettingAnswering(false) => { self.phase = Phase::BettingAnswering(true); },
            Phase::EstimationAnswering(false) => { self.phase = Phase::EstimationAnswering(true); },
            Phase::VersusAnswering(false) => { self.phase = Phase::VersusAnswering(true); },
            _ => { return Err(GameError::PhaseMismatch); },
        }
        Ok(())
    }

    /// Lets the next advancement start the next question; legal in the
    /// results phase only (and nothing changes where it was asked already).
    pub fn request_next_question(&mut self) -> (r: Result<(), GameError>)
        requires
            old(self)@.wf(),
        ensures
            final(self)@.wf(),
            match old(self)@.phase {
                Phase::Results(_) => r == Ok::<(), GameError>(())
                    && final(self)@ == in_phase(old(self)@, Phase::Results(true)),
                _ => r == Err::<(), GameError>(GameError::PhaseMismatch) && final(self)@ == old(self)@,
            },
    {
        match self.phase {
            Phase::Results(_) => {
                self.phase = Phase::Results(true);
                Ok(())
            },
            _ => Err(GameError::PhaseMismatch),
        }
    }

    /// Sets the show so that the next advancement starts question `n`, and
    /// returns the number of the question before; legal only between
    /// questions or after the end.
    pub fn jump_to_question(&mut self, n: usize) -> (r: Result<usize, GameError>)
        requires
            old(self)@.wf(),
        ensures
            final(self)@.wf(),
            match r {
                Ok(prev) => jump_outcome(old(self)@, n as int) == Ok::<nat, GameError>(prev as nat)
                    && final(self)@ == jumped(old(self)@, n as int),
                Err(e) => jump_outcome(old(self)@, n as int) == Err::<nat, GameError>(e)
                    && final(self)@ == old(self)@,
            },
    {
        if self.phase != Phase::Results(false) && self.phase != Phase::GameEnding {
            return Err(GameError::PhaseMismatch);
        }
        if n < 1 || n > self.questions.len() {
            return Err(GameError::InvalidInput);
        }
        let prev = self.current;
        self.current = n - 1;
        self.phase = Phase::Results(false);
        Ok(prev)
    }

    /// Replaces the questions and starts over from before the first one;
    /// legal only between questions or after the end. Returns how many
    /// questions there are now.
    pub fn reload_questions(&mut self, questions: Vec<Question>) -> (r: Result<usize, GameError>)
        requires
            old(self)@.wf(),
            questions@.len() < usize::MAX,
        ensures
            final(self)@.wf(),
            if between_questions(old(self)@.phase) {
                r == Ok::<usize, GameError>(questions@.len() as usize) && final(self)@ == (GameView {
                    questions: questions@,
                    current: 0,
                    phase: Phase::Results(false),
                    ..old(self)@
                })
            } else {
                r == Err::<usize, GameError>(GameError::PhaseMismatch) && final(self)@ == old(self)@
            },
    {
        if self.phase != Phase::Results(false) && self.phase != Phase::GameEnding {
            return Err(GameError::PhaseMismatch);
        }
        let count = questions.len();
        self.questions = questions;
        self.current = 0;
        self.phase = Phase::Results(false);
        Ok(count)
    }

    /// Advances where the current step is complete (see `advance`) and then
    /// hands out the whole event log.
    pub fn poll_and_advance(&mut self) -> (r: &Vec<Event>)
        requires
            old(self)@.wf(),
        ensures
            final(self)@.wf(),
            final(self)@ == advanced(old(self)@),
            events_view(r@) == final(self)@.events,
    {
        self.advance();
        &self.events
    }

    /// The players, in the order in which they joined.
    pub fn players(&self) -> (r: &Vec<Player>)
        ensures
            players_view(r@) == self@.players,
    {
        &self.players
    }

    /// The event log, oldest first.
    pub fn events(&self) -> (r: &Vec<Event>)
        ensures
            events_view(r@) == self@.events,
    {
        &self.events
    }

    /// The loaded questions.
    pub fn questions(&self) -> (r: &Vec<Question>)
        ensures
            r@ == self@.questions,
    {
        &self.questions
    }

    /// The number of the current question (0 before the first).
    pub fn current_question(&self) -> (r: usize)
        ensures
            r == self@.current,
    {
        self.current
    }

    /// The current phase.
    pub fn phase(&self) -> (r: Phase)
        ensures
            r == self@.phase,
    {
        self.phase
    }

    /// The amounts the show was set up with.
    pub fn config(&self) -> (r: Config)
        ensures
            r == self@.config,
    {
        self.config
    }

    /// Whether the current step is complete, so that the next advancement
    /// moves on.
    pub fn peek_ready(&self) -> (r: bool)
        ensures
            r == is_ready(self@.phase),
    {
        match self.phase {
            Phase::Results(r) | Phase::NormalAnswering(r) | Phase::BettingBetting(r) | Phase::BettingAnswering(r)
            | Phase::EstimationAnswering(r) | Phase::VersusSelecting(r) | Phase::VersusAnswering(r) => r,
            Phase::GameEnding => false,
        }
    }

    /// Where the current step is complete, performs the one transition that
    /// follows it and logs one event; otherwise changes nothing. Returns
    /// whether it moved.
    pub fn advance(&mut self) -> (moved: bool)
        requires
            old(self)@.wf(),
        ensures
            final(self)@.wf(),
            final(self)@ == advanced(old(self)@),
            moved == is_ready(old(self)@.phase),
    {
        proof { lemma_advanced_wf(self@); }
        match self.phase {
            Phase::Results(true) => {
                let n = self.current + 1;
                if n > self.questions.len() {
                    let players = copy_players(&self.players);
                    self.log(EventKind::GameEnding { players });
                    self.current = n;
                    self.phase = Phase::GameEnding;
                } else {
                    let kind = begin_kind(&self.questions[n - 1], n);
                    let phase = begin_phase_of(self.questions[n - 1].question_type);
                    clear_round(&mut self.players);
                    self.log(kind);
                    self.current = n;
                    self.phase = phase;
                }
                true
            },
            Phase::BettingBetting(true) => {
                let q = &self.questions[self.current - 1];
                let kind = EventKind::BeginBettingAnswering { question: q.question.clone(), answers: copy_strings(&q.answers) };
                self.log(kind);
                self.phase = Phase::BettingAnswering(false);
                true
            },
            Phase::VersusSelecting(true) => {
                let q = &self.questions[self.current - 1];
                let kind = EventKind::BeginVersusAnswering { question: q.question.clone(), answers: copy_strings(&q.answers) };
                self.log(kind);
                self.phase = Phase::VersusAnswering(false);
                true
            },
            Phase::NormalAnswering(true) | Phase::BettingAnswering(true) | Phase::EstimationAnswering(true)
            | Phase::VersusAnswering(true) => {
                self.settle();
                true
            },
            _ => false,
        }
    }
}

} // verus!

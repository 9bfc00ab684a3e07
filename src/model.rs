use vstd::prelude::*;

verus! {

/// The four kinds of question a show can hold.
#[derive(Clone, Copy, Debug, PartialEq, Eq, Structural)]
pub enum QuestionType {
    NormalQuestion,
    BettingQuestion,
    EstimationQuestion,
    VersusQuestion,
}

/// One participant of the show.
#[derive(Debug)]
pub struct Player {
    /// Unique, trimmed, non-empty name.
    pub name: String,
    pub jokers: usize,
    pub money: i64,
    /// Money bet on the current betting question (0 = none).
    pub money_bet: i64,
    /// Name of the opponent picked in a versus question (empty = none).
    pub vs_player: String,
    /// Answer to the current question (0 = none, otherwise 1-based).
    pub answer: usize,
}

/// One question of the loaded list. Never changed once loaded.
#[derive(Debug)]
pub struct Question {
    pub question_type: QuestionType,
    pub category: String,
    pub question: String,
    pub answers: Vec<String>,
    /// The option number of the right answer, or the right value of an
    /// estimation question.
    pub correct_answer: usize,
}

/// Where the current question stands. The flag tells whether the step is
/// complete, so that the next advancement may move on.
#[derive(Clone, Copy, Debug, PartialEq, Eq, Structural)]
pub enum Phase {
    Results(bool),
    NormalAnswering(bool),
    BettingBetting(bool),
    BettingAnswering(bool),
    EstimationAnswering(bool),
    VersusSelecting(bool),
    VersusAnswering(bool),
    GameEnding,
}

/// Why an action was refused. A refused action leaves the game unchanged.
#[derive(Clone, Copy, Debug, PartialEq, Eq, Structural)]
pub enum GameError {
    InvalidInput,
    NotFound,
    PhaseMismatch,
    NoJokersLeft,
    LoadFailure,
}

/// The tunable amounts of a show.
#[derive(Clone, Copy, Debug)]
pub struct Config {
    pub initial_money: i64,
    pub initial_jokers: usize,
    pub normal_reward: i64,
    pub estimation_reward: i64,
}

impl Config {
    /// Amounts that keep every balance non-negative.
    pub open spec fn wf(self) -> bool {
        &&& self.initial_money >= 0
        &&& self.normal_reward >= 0
        &&& self.estimation_reward >= 0
    }
}

/// What an event reports, with the strings and players as plain sequences.
pub enum EventData {
    BeginNormalAnswering { question_number: nat, category: Seq<char>, question: Seq<char>, answers: Seq<Seq<char>> },
    BeginBettingBetting { question_number: nat, category: Seq<char> },
    BeginBettingAnswering { question: Seq<char>, answers: Seq<Seq<char>> },
    BeginEstimationAnswering { question_number: nat, category: Seq<char>, question: Seq<char> },
    BeginVersusSelecting { question_number: nat, category: Seq<char> },
    BeginVersusAnswering { question: Seq<char>, answers: Seq<Seq<char>> },
    ShowResults { correct_answer: nat, before: Seq<PlayerView>, after: Seq<PlayerView> },
    GameEnding { players: Seq<PlayerView> },
}

/// A player as plain values.
pub struct PlayerView {
    pub name: Seq<char>,
    pub jokers: nat,
    pub money: int,
    pub money_bet: int,
    pub vs_player: Seq<char>,
    pub answer: nat,
}

/// An event of the log as plain values.
pub struct EventView {
    pub id: nat,
    pub data: EventData,
}

pub open spec fn strings_view(v: Seq<String>) -> Seq<Seq<char>> {
    v.map_values(|s: String| s@)
}

pub open spec fn players_view(v: Seq<Player>) -> Seq<PlayerView> {
    v.map_values(|p: Player| p@)
}

impl View for Player {
    type V = PlayerView;

    open spec fn view(&self) -> PlayerView {
        PlayerView {
            name: self.name@,
            jokers: self.jokers as nat,
            money: self.money as int,
            money_bet: self.money_bet as int,
            vs_player: self.vs_player@,
            answer: self.answer as nat,
        }
    }
}

impl Player {
    /// A field-by-field copy.
    pub fn duplicate(&self) -> (r: Player)
        ensures
            r@ == self@,
    {
        Player {
            name: self.name.clone(),
            jokers: self.jokers,
            money: self.money,
            money_bet: self.money_bet,
            vs_player: self.vs_player.clone(),
            answer: self.answer,
        }
    }
}

/// A copy of every player, in order.
pub fn copy_players(v: &Vec<Player>) -> (r: Vec<Player>)
    ensures
        players_view(r@) == players_view(v@),
{
    let mut r: Vec<Player> = Vec::new();
    let mut i: usize = 0;
    while i < v.len()
        invariant
            i <= v.len(),
            r@.len() == i,
            forall|k: int| 0 <= k < i ==> (#[trigger] r@[k])@ == v@[k]@,
        decreases v.len() - i,
    {
        r.push(v[i].duplicate());
        i = i + 1;
    }
    assert(players_view(r@) =~= players_view(v@));
    r
}

/// A copy of every string, in order.
pub fn copy_strings(v: &Vec<String>) -> (r: Vec<String>)
    ensures
        strings_view(r@) == strings_view(v@),
{
    let mut r: Vec<String> = Vec::new();
    let mut i: usize = 0;
    while i < v.len()
        invariant
            i <= v.len(),
            r@.len() == i,
            forall|k: int| 0 <= k < i ==> (#[trigger] r@[k])@ == v@[k]@,
        decreases v.len() - i,
    {
        r.push(v[i].clone());
        i = i + 1;
    }
    assert(strings_view(r@) =~= strings_view(v@));
    r
}

/// What an event reports.
#[derive(Debug)]
pub enum EventKind {
    BeginNormalAnswering { question_number: usize, category: String, question: String, answers: Vec<String> },
    BeginBettingBetting { question_number: usize, category: String },
    BeginBettingAnswering { question: String, answers: Vec<String> },
    BeginEstimationAnswering { question_number: usize, category: String, question: String },
    BeginVersusSelecting { question_number: usize, category: String },
    BeginVersusAnswering { question: String, answers: Vec<String> },
    ShowResults { correct_answer: usize, before: Vec<Player>, after: Vec<Player> },
    GameEnding { players: Vec<Player> },
}

/// One entry of the event log: its position in the log and what it reports.
#[derive(Debug)]
pub struct Event {
    pub id: usize,
    pub kind: EventKind,
}

impl View for EventKind {
    type V = EventData;

    open spec fn view(&self) -> EventData {
        match self {
            EventKind::BeginNormalAnswering { question_number, category, question, answers } =>
                EventData::BeginNormalAnswering {
                    question_number: *question_number as nat,
                    category: category@,
                    question: question@,
                    answers: strings_view(answers@),
                },
            EventKind::BeginBettingBetting { question_number, category } =>
                EventData::BeginBettingBetting { question_number: *question_number as nat, category: category@ },
            EventKind::BeginBettingAnswering { question, answers } =>
                EventData::BeginBettingAnswering { question: question@, answers: strings_view(answers@) },
            EventKind::BeginEstimationAnswering { question_number, category, question } =>
                EventData::BeginEstimationAnswering {
                    question_number: *question_number as nat,
                    category: category@,
                    question: question@,
                },
            EventKind::BeginVersusSelecting { question_number, category } =>
                EventData::BeginVersusSelecting { question_number: *question_number as nat, category: category@ },
            EventKind::BeginVersusAnswering { question, answers } =>
                EventData::BeginVersusAnswering { question: question@, answers: strings_view(answers@) },
            EventKind::ShowResults { correct_answer, before, after } =>
                EventData::ShowResults {
                    correct_answer: *correct_answer as nat,
                    before: players_view(before@),
                    after: players_view(after@),
                },
            EventKind::GameEnding { players } => EventData::GameEnding { players: players_view(players@) },
        }
    }
}

impl View for Event {
    type V = EventView;

    open spec fn view(&self) -> EventView {
        EventView { id: self.id as nat, data: self.kind@ }
    }
}

/// The name tag of each kind of event.
pub open spec fn event_name(d: EventData) -> Seq<char> {
    match d {
        EventData::BeginNormalAnswering { .. } => "BeginNormalQAnswering"@,
        EventData::BeginBettingBetting { .. } => "BeginBettingQBetting"@,
        EventData::BeginBettingAnswering { .. } => "BeginBettingQAnswering"@,
        EventData::BeginEstimationAnswering { .. } => "BeginEstimationQAnswering"@,
        EventData::BeginVersusSelecting { .. } => "BeginVersusQSelecting"@,
        EventData::BeginVersusAnswering { .. } => "BeginVersusQAnswering"@,
        EventData::ShowResults { .. } => "ShowResults"@,
        EventData::GameEnding { .. } => "GameEnding"@,
    }
}

impl EventKind {
    /// The name under which observers know this kind of event.
    pub fn name(&self) -> (r: &'static str)
        ensures
            r@ == event_name(self@),
    {
        match self {
            EventKind::BeginNormalAnswering { .. } => "BeginNormalQAnswering",
            EventKind::BeginBettingBetting { .. } => "BeginBettingQBetting",
            EventKind::BeginBettingAnswering { .. } => "BeginBettingQAnswering",
            EventKind::BeginEstimationAnswering { .. } => "BeginEstimationQAnswering",
            EventKind::BeginVersusSelecting { .. } => "BeginVersusQSelecting",
            EventKind::BeginVersusAnswering { .. } => "BeginVersusQAnswering",
            EventKind::ShowResults { .. } => "ShowResults",
            EventKind::GameEnding { .. } => "GameEnding",
        }
    }
}

pub open spec fn events_view(v: Seq<Event>) -> Seq<EventView> {
    v.map_values(|e: Event| e@)
}

} // verus!

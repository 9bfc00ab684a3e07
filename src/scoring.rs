use vstd::prelude::*;
use crate::model::{Player, PlayerView, players_view};

verus! {

/// `m` raised by `x`, held at the largest balance that fits.
pub open spec fn credit(m: int, x: int) -> int {
    if m + x > i64::MAX { i64::MAX as int } else { m + x }
}

/// A settled balance: one that would be zero or less becomes 1, so that the
/// player can go on playing.
pub open spec fn floor_one(m: int) -> int {
    if m <= 0 { 1 } else { m }
}

pub open spec fn with_money(p: PlayerView, m: int) -> PlayerView {
    PlayerView { money: m, ..p }
}

/// Balances and bets are never negative.
pub open spec fn balances_ok(ps: Seq<PlayerView>) -> bool {
    forall|i: int| 0 <= i < ps.len() ==> #[trigger] ps[i].money >= 0 && ps[i].money_bet >= 0
}

/// Normal question: the right answer earns `reward`.
pub open spec fn normal_scored(ps: Seq<PlayerView>, correct: nat, reward: int) -> Seq<PlayerView> {
    Seq::new(ps.len(), |i: int|
        if ps[i].answer == correct { with_money(ps[i], credit(ps[i].money, reward)) } else { ps[i] })
}

/// Betting question: the right answer earns the bet, a wrong one loses it;
/// either way a balance that would be 0 is stored as 1.
pub open spec fn betting_scored(ps: Seq<PlayerView>, correct: nat) -> Seq<PlayerView> {
    Seq::new(ps.len(), |i: int|
        if ps[i].answer == correct {
            with_money(ps[i], floor_one(credit(ps[i].money, ps[i].money_bet)))
        } else {
            with_money(ps[i], floor_one(ps[i].money - ps[i].money_bet))
        })
}

pub open spec fn distance(a: nat, b: nat) -> nat {
    if a >= b { (a - b) as nat } else { (b - a) as nat }
}

/// The least distance of an answer to `correct` (the largest `usize` when
/// there is no player).
pub open spec fn min_distance(ps: Seq<PlayerView>, correct: nat) -> nat
    decreases ps.len(),
{
    if ps.len() == 0 {
        usize::MAX as nat
    } else {
        let d = distance(ps.last().answer, correct);
        let m = min_distance(ps.drop_last(), correct);
        if d < m { d } else { m }
    }
}

/// Estimation question: every player closest to the right value earns `reward`.
pub open spec fn estimation_scored(ps: Seq<PlayerView>, correct: nat, reward: int) -> Seq<PlayerView> {
    Seq::new(ps.len(), |i: int|
        if distance(ps[i].answer, correct) == min_distance(ps, correct) {
            with_money(ps[i], credit(ps[i].money, reward))
        } else {
            ps[i]
        })
}

/// How many players picked `target` and answered right (`right`) or wrong (`!right`).
pub open spec fn selectors(ps: Seq<PlayerView>, target: Seq<char>, correct: nat, right: bool) -> nat
    decreases ps.len(),
{
    if ps.len() == 0 {
        0
    } else {
        let p = ps.last();
        let hit: nat = if p.vs_player == target && (p.answer == correct) == right { 1 } else { 0 };
        selectors(ps.drop_last(), target, correct, right) + hit
    }
}

/// `m` doubled `k` times, held at the largest balance that fits.
pub open spec fn doubled(m: int, k: nat) -> int
    decreases k,
{
    if k == 0 {
        m
    } else {
        doubled(if 2 * m > i64::MAX { i64::MAX as int } else { 2 * m }, (k - 1) as nat)
    }
}

/// `m` halved `k` times, each time rounded down.
pub open spec fn halved(m: int, k: nat) -> int
    decreases k,
{
    if k == 0 { m } else { halved(m / 2, (k - 1) as nat) }
}

/// `m` times two to the power `e`, truncated.
pub open spec fn scaled(m: int, e: int) -> int {
    if e >= 0 { doubled(m, e as nat) } else { halved(m, (-e) as nat) }
}

/// Versus question: a player's balance is doubled once for each player who
/// picked them and answered wrong, and halved once for each who picked them
/// and answered right, all from the balance before the round.
pub open spec fn versus_scored(ps: Seq<PlayerView>, correct: nat) -> Seq<PlayerView> {
    Seq::new(ps.len(), |j: int| {
        let e = selectors(ps, ps[j].name, correct, false) - selectors(ps, ps[j].name, correct, true);
        with_money(ps[j], floor_one(scaled(ps[j].money, e)))
    })
}

pub proof fn lemma_selectors_bound(ps: Seq<PlayerView>, target: Seq<char>, correct: nat, right: bool)
    ensures
        selectors(ps, target, correct, right) <= ps.len(),
    decreases ps.len(),
{
    if ps.len() > 0 {
        lemma_selectors_bound(ps.drop_last(), target, correct, right);
    }
}

fn credited(m: i64, x: i64) -> (r: i64)
    requires
        x >= 0,
    ensures
        r == credit(m as int, x as int),
{
    if m > i64::MAX - x { i64::MAX } else { m + x }
}

fn floored(m: i64) -> (r: i64)
    ensures
        r == floor_one(m as int),
{
    if m <= 0 { 1 } else { m }
}

fn set_money(p: &Player, m: i64) -> (r: Player)
    ensures
        r@ == with_money(p@, m as int),
{
    let mut r = p.duplicate();
    r.money = m;
    r
}

/// Settles a normal question.
pub fn score_normal(players: &mut Vec<Player>, correct: usize, reward: i64)
    requires
        reward >= 0,
    ensures
        players_view(final(players)@) == normal_scored(players_view(old(players)@), correct as nat, reward as int),
{
    let ghost ps = players_view(players@);
    let mut r: Vec<Player> = Vec::new();
    let mut i: usize = 0;
    while i < players.len()
        invariant
            i <= players.len(),
            ps == players_view(players@),
            reward >= 0,
            r@.len() == i,
            forall|k: int| 0 <= k < i ==> (#[trigger] r@[k])@ == normal_scored(ps, correct as nat, reward as int)[k],
        decreases players.len() - i,
    {
        let p = &players[i];
        if p.answer == correct {
            let m = credited(p.money, reward);
            r.push(set_money(p, m));
        } else {
            r.push(p.duplicate());
        }
        i = i + 1;
    }
    assert(players_view(r@) =~= normal_scored(ps, correct as nat, reward as int));
    *players = r;
}

/// Settles a betting question.
pub fn score_betting(players: &mut Vec<Player>, correct: usize)
    requires
        balances_ok(players_view(old(players)@)),
    ensures
        players_view(final(players)@) == betting_scored(players_view(old(players)@), correct as nat),
{
    let ghost ps = players_view(players@);
    let mut r: Vec<Player> = Vec::new();
    let mut i: usize = 0;
    while i < players.len()
        invariant
            i <= players.len(),
            ps == players_view(players@),
            balances_ok(ps),
            r@.len() == i,
            forall|k: int| 0 <= k < i ==> (#[trigger] r@[k])@ == betting_scored(ps, correct as nat)[k],
        decreases players.len() - i,
    {
        let p = &players[i];
        assert(ps[i as int] == p@);
        assert(ps[i as int].money >= 0 && ps[i as int].money_bet >= 0);
        let m = if p.answer == correct {
            floored(credited(p.money, p.money_bet))
        } else {
            floored(p.money - p.money_bet)
        };
        r.push(set_money(p, m));
        i = i + 1;
    }
    assert(players_view(r@) =~= betting_scored(ps, correct as nat));
    *players = r;
}

fn answer_distance(a: usize, b: usize) -> (r: usize)
    ensures
        r == distance(a as nat, b as nat),
{
    if a >= b { a - b } else { b - a }
}

/// Settles an estimation question.
pub fn score_estimation(players: &mut Vec<Player>, correct: usize, reward: i64)
    requires
        reward >= 0,
    ensures
        players_view(final(players)@) == estimation_scored(players_view(old(players)@), correct as nat, reward as int),
{
    let ghost ps = players_view(players@);
    let mut best: usize = usize::MAX;
    let mut i: usize = 0;
    while i < players.len()
        invariant
            i <= players.len(),
            ps == players_view(players@),
            best == min_distance(ps.subrange(0, i as int), correct as nat),
        decreases players.len() - i,
    {
        let d = answer_distance(players[i].answer, correct);
        assert(ps.subrange(0, i + 1).drop_last() =~= ps.subrange(0, i as int));
        if d < best {
            best = d;
        }
        i = i + 1;
    }
    assert(ps.subrange(0, ps.len() as int) =~= ps);
    let mut r: Vec<Player> = Vec::new();
    let mut i: usize = 0;
    while i < players.len()
        invariant
            i <= players.len(),
            ps == players_view(players@),
            best == min_distance(ps, correct as nat),
            reward >= 0,
            r@.len() == i,
            forall|k: int| 0 <= k < i ==> (#[trigger] r@[k])@ == estimation_scored(ps, correct as nat, reward as int)[k],
        decreases players.len() - i,
    {
        let p = &players[i];
        if answer_distance(p.answer, correct) == best {
            let m = credited(p.money, reward);
            r.push(set_money(p, m));
        } else {
            r.push(p.duplicate());
        }
        i = i + 1;
    }
    assert(players_view(r@) =~= estimation_scored(ps, correct as nat, reward as int));
    *players = r;
}

fn doubled_exec(m: i64, k: usize) -> (r: i64)
    requires
        m >= 0,
    ensures
        r == doubled(m as int, k as nat),
        r >= 0,
{
    let mut x: i64 = m;
    let mut i: usize = 0;
    while i < k
        invariant
            i <= k,
            x >= 0,
            doubled(x as int, (k - i) as nat) == doubled(m as int, k as nat),
        decreases k - i,
    {
        x = if x > i64::MAX / 2 { i64::MAX } else { 2 * x };
        i = i + 1;
    }
    x
}

fn halved_exec(m: i64, k: usize) -> (r: i64)
    requires
        m >= 0,
    ensures
        r == halved(m as int, k as nat),
        r >= 0,
{
    let mut x: i64 = m;
    let mut i: usize = 0;
    while i < k
        invariant
            i <= k,
            x >= 0,
            halved(x as int, (k - i) as nat) == halved(m as int, k as nat),
        decreases k - i,
    {
        x = x / 2;
        i = i + 1;
    }
    x
}

/// Settles a versus question.
pub fn score_versus(players: &mut Vec<Player>, correct: usize)
    requires
        balances_ok(players_view(old(players)@)),
    ensures
        players_view(final(players)@) == versus_scored(players_view(old(players)@), correct as nat),
{
    let ghost ps = players_view(players@);
    let n = players.len();
    let mut halves: Vec<usize> = Vec::new();
    let mut doubles: Vec<usize> = Vec::new();
    let mut j: usize = 0;
    while j < n
        invariant
            j <= n,
            halves@.len() == j,
            doubles@.len() == j,
            forall|k: int| 0 <= k < j ==> #[trigger] halves@[k] == 0,
            forall|k: int| 0 <= k < j ==> #[trigger] doubles@[k] == 0,
        decreases n - j,
    {
        halves.push(0);
        doubles.push(0);
        j = j + 1;
    }
    assert(ps.subrange(0, 0) =~= Seq::<PlayerView>::empty());
    let mut i: usize = 0;
    while i < n
        invariant
            i <= n,
            n == players.len(),
            ps == players_view(players@),
            halves@.len() == n,
            doubles@.len() == n,
            forall|k: int| 0 <= k < n ==> #[trigger] halves@[k] == selectors(ps.subrange(0, i as int), ps[k].name, correct as nat, true),
            forall|k: int| 0 <= k < n ==> #[trigger] doubles@[k] == selectors(ps.subrange(0, i as int), ps[k].name, correct as nat, false),
        decreases n - i,
    {
        let ghost pre = ps.subrange(0, i as int);
        let ghost post = ps.subrange(0, i + 1);
        assert(post.drop_last() =~= pre);
        assert(post.last() == ps[i as int]);
        let mut j: usize = 0;
        while j < n
            invariant
                i < n,
                j <= n,
                n == players.len(),
                ps == players_view(players@),
                pre == ps.subrange(0, i as int),
                post == ps.subrange(0, i + 1),
                post.drop_last() == pre,
                post.last() == ps[i as int],
                halves@.len() == n,
                doubles@.len() == n,
                forall|k: int| 0 <= k < j ==> #[trigger] halves@[k] == selectors(post, ps[k].name, correct as nat, true),
                forall|k: int| 0 <= k < j ==> #[trigger] doubles@[k] == selectors(post, ps[k].name, correct as nat, false),
                forall|k: int| j <= k < n ==> #[trigger] halves@[k] == selectors(pre, ps[k].name, correct as nat, true),
                forall|k: int| j <= k < n ==> #[trigger] doubles@[k] == selectors(pre, ps[k].name, correct as nat, false),
            decreases n - j,
        {
            proof {
                lemma_selectors_bound(pre, ps[j as int].name, correct as nat, true);
                lemma_selectors_bound(pre, ps[j as int].name, correct as nat, false);
            }
            assert(selectors(post, ps[j as int].name, correct as nat, true) == selectors(pre, ps[j as int].name, correct as nat, true)
                + (if ps[i as int].vs_player == ps[j as int].name && (ps[i as int].answer == correct) == true { 1nat } else { 0nat }));
            assert(selectors(post, ps[j as int].name, correct as nat, false) == selectors(pre, ps[j as int].name, correct as nat, false)
                + (if ps[i as int].vs_player == ps[j as int].name && (ps[i as int].answer == correct) == false { 1nat } else { 0nat }));
            if players[i].vs_player == players[j].name {
                if players[i].answer == correct {
                    halves[j] = halves[j] + 1;
                } else {
                    doubles[j] = doubles[j] + 1;
                }
            }
            j = j + 1;
        }
        i = i + 1;
    }
    assert(ps.subrange(0, n as int) =~= ps);
    let mut r: Vec<Player> = Vec::new();
    let mut j: usize = 0;
    while j < n
        invariant
            j <= n,
            n == players.len(),
            ps == players_view(players@),
            balances_ok(ps),
            halves@.len() == n,
            doubles@.len() == n,
            forall|k: int| 0 <= k < n ==> #[trigger] halves@[k] == selectors(ps, ps[k].name, correct as nat, true),
            forall|k: int| 0 <= k < n ==> #[trigger] doubles@[k] == selectors(ps, ps[k].name, correct as nat, false),
            r@.len() == j,
            forall|k: int| 0 <= k < j ==> (#[trigger] r@[k])@ == versus_scored(ps, correct as nat)[k],
        decreases n - j,
    {
        let p = &players[j];
        assert(ps[j as int] == p@);
        assert(ps[j as int].money >= 0 && ps[j as int].money_bet >= 0);
        let h = halves[j];
        let d = doubles[j];
        let m = if d >= h { doubled_exec(p.money, d - h) } else { halved_exec(p.money, h - d) };
        r.push(set_money(p, floored(m)));
        j = j + 1;
    }
    assert(players_view(r@) =~= versus_scored(ps, correct as nat));
    *players = r;
}

} // verus!

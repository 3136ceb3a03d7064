//! The time-odds classifier: games whose two sides began with unequal
//! clocks, almost always from berserking, in any time control.
//!
//! The first two clock samples fix each side's starting time.  A game is
//! rejected when the two starting times equal each other (symmetric odds
//! are not odds), when neither side's starting time differs from the
//! stated control once a third sample arrives (asymmetry checks passed but
//! no odds are present), when any later sample exceeds that side's
//! previous sample by more than the increment plus one second (a mid-game
//! time grant), or when fewer than two samples arrive at all.

use vstd::prelude::*;

use crate::bytes::{bytes_eq, contains, contains_seq};
use crate::comments::{clock_of_comment, total_seconds_spec, Clock};
use crate::headers::{
    bytes_black_elo, bytes_event, bytes_result, bytes_termination, bytes_time_control,
    bytes_tournament, bytes_white_elo, lit_black_elo, lit_event, lit_result, lit_termination,
    lit_time_control, lit_tournament, lit_white_elo, pgn_result_of, rating_of, termination_of,
    time_control_of, PgnResult, Rating, Termination, TimeControl,
};

verus! {

/// One output row: ratings, both sides' recorded starting times, the
/// stated control, the mapped result and termination, and whether the
/// event names a tournament.
#[derive(Clone, Copy, PartialEq, Eq, Structural, Debug)]
pub struct Row {
    pub white_rating: Rating,
    pub black_rating: Rating,
    pub white_initial_time: u32,
    pub black_initial_time: u32,
    pub initial_time: u32,
    pub increment: u32,
    pub result: u8,
    pub termination: u8,
    pub tournament: bool,
}

/// Per-game scratch state, reset at every game begin.
#[derive(Clone, Copy, PartialEq, Eq, Structural, Debug)]
pub struct Scratch {
    pub moves_with_clk: u64,
    pub white_time_odds: bool,
    pub black_time_odds: bool,
    pub white_prev_time: u32,
    pub black_prev_time: u32,
    pub skip_game: bool,
}

impl Scratch {
    /// True when the next clock sample belongs to white: samples
    /// alternate, white first.
    pub fn white_move(&self) -> (r: bool)
        ensures
            r == (self.moves_with_clk % 2 == 0),
    {
        self.moves_with_clk % 2 == 0
    }

    /// Clears the scratch for the next game.
    pub fn reset(&mut self)
        ensures
            *final(self) == scratch_init(),
    {
        self.moves_with_clk = 0;
        self.white_time_odds = false;
        self.black_time_odds = false;
        self.white_prev_time = 0;
        self.black_prev_time = 0;
        self.skip_game = false;
    }
}

/// A fresh row, all fields zero.
pub open spec fn row_init() -> Row {
    Row {
        white_rating: Rating(0),
        black_rating: Rating(0),
        white_initial_time: 0,
        black_initial_time: 0,
        initial_time: 0,
        increment: 0,
        result: 0,
        termination: 0,
        tournament: false,
    }
}

/// Fresh scratch state.
pub open spec fn scratch_init() -> Scratch {
    Scratch {
        moves_with_clk: 0,
        white_time_odds: false,
        black_time_odds: false,
        white_prev_time: 0,
        black_prev_time: 0,
        skip_game: false,
    }
}

/// The state a game begins in: a fresh row and fresh scratch.  Absent
/// headers thus keep their zero defaults rather than rejecting the game.
pub open spec fn initial() -> Processor {
    Processor { row: row_init(), scratch: scratch_init() }
}

/// The state with the game marked rejected.
pub open spec fn rejected(p: Processor) -> Processor {
    Processor { scratch: Scratch { skip_game: true, ..p.scratch }, ..p }
}

/// The sample counter one higher, held at its ceiling rather than
/// wrapping.
pub open spec fn bump(m: u64) -> u64 {
    if m < u64::MAX {
        (m + 1) as u64
    } else {
        m
    }
}

/// What one header does to the state.  The event header only records
/// whether a tournament is named; it never rejects.
pub open spec fn header_step(p: Processor, key: Seq<u8>, value: Seq<u8>) -> Processor {
    if p.scratch.skip_game {
        p
    } else if key == lit_white_elo() {
        match rating_of(value) {
            Some(rating) => Processor { row: Row { white_rating: rating, ..p.row }, ..p },
            None => rejected(p),
        }
    } else if key == lit_black_elo() {
        match rating_of(value) {
            Some(rating) => Processor { row: Row { black_rating: rating, ..p.row }, ..p },
            None => rejected(p),
        }
    } else if key == lit_event() {
        Processor {
            row: Row { tournament: contains_seq(value, lit_tournament()), ..p.row },
            ..p
        }
    } else if key == lit_time_control() {
        match time_control_of(value) {
            Some(tc) => Processor {
                row: Row { initial_time: tc.initial_time, increment: tc.increment, ..p.row },
                ..p
            },
            None => rejected(p),
        }
    } else if key == lit_termination() {
        match termination_of(value) {
            Some(Termination::Normal) => Processor {
                row: Row { termination: 0, ..p.row },
                ..p
            },
            Some(Termination::TimeForfeit) => Processor {
                row: Row { termination: 1, ..p.row },
                ..p
            },
            Some(_) => rejected(p),
            None => rejected(p),
        }
    } else if key == lit_result() {
        match pgn_result_of(value) {
            Some(PgnResult::WhiteWin) => Processor { row: Row { result: 2, ..p.row }, ..p },
            Some(PgnResult::Draw) => Processor { row: Row { result: 1, ..p.row }, ..p },
            Some(PgnResult::BlackWin) => Processor { row: Row { result: 0, ..p.row }, ..p },
            Some(PgnResult::Other) => rejected(p),
            None => rejected(p),
        }
    } else {
        p
    }
}

/// What one move comment does to the state, at the ply the sample counter
/// names.
pub open spec fn comment_step(p: Processor, c: Seq<u8>) -> Processor {
    if p.scratch.skip_game {
        p
    } else {
        match clock_of_comment(c) {
            Some(clock) => {
                let t = total_seconds_spec(clock);
                if p.scratch.moves_with_clk == 0 {
                    Processor {
                        row: Row { white_initial_time: t as u32, ..p.row },
                        scratch: Scratch {
                            white_time_odds: p.scratch.white_time_odds || p.row.initial_time != t,
                            white_prev_time: t as u32,
                            moves_with_clk: bump(p.scratch.moves_with_clk),
                            ..p.scratch
                        },
                    }
                } else if p.scratch.moves_with_clk == 1 {
                    if t == p.row.white_initial_time {
                        rejected(p)
                    } else {
                        Processor {
                            row: Row { black_initial_time: t as u32, ..p.row },
                            scratch: Scratch {
                                black_time_odds: p.scratch.black_time_odds || p.row.initial_time != t,
                                black_prev_time: t as u32,
                                moves_with_clk: bump(p.scratch.moves_with_clk),
                                ..p.scratch
                            },
                        }
                    }
                } else if !p.scratch.white_time_odds && !p.scratch.black_time_odds {
                    rejected(p)
                } else if p.scratch.moves_with_clk % 2 == 0 {
                    if t > p.scratch.white_prev_time + p.row.increment + 1 {
                        rejected(p)
                    } else {
                        Processor {
                            scratch: Scratch {
                                white_prev_time: t as u32,
                                moves_with_clk: bump(p.scratch.moves_with_clk),
                                ..p.scratch
                            },
                            ..p
                        }
                    }
                } else {
                    if t > p.scratch.black_prev_time + p.row.increment + 1 {
                        rejected(p)
                    } else {
                        Processor {
                            scratch: Scratch {
                                black_prev_time: t as u32,
                                moves_with_clk: bump(p.scratch.moves_with_clk),
                                ..p.scratch
                            },
                            ..p
                        }
                    }
                }
            },
            None => rejected(p),
        }
    }
}

/// What the end of the game does to the state: a game in which either
/// side never produced a clock sample is rejected.
pub open spec fn end_step(p: Processor) -> Processor {
    if p.scratch.moves_with_clk < 2 {
        rejected(p)
    } else {
        p
    }
}

/// The state after a list of headers, in order.
pub open spec fn run_headers(p: Processor, hs: Seq<(Seq<u8>, Seq<u8>)>) -> Processor
    decreases hs.len(),
{
    if hs.len() == 0 {
        p
    } else {
        run_headers(header_step(p, hs[0].0, hs[0].1), hs.drop_first())
    }
}

/// The state after a list of move comments, in order.
pub open spec fn run_comments(p: Processor, cs: Seq<Seq<u8>>) -> Processor
    decreases cs.len(),
{
    if cs.len() == 0 {
        p
    } else {
        run_comments(comment_step(p, cs[0]), cs.drop_first())
    }
}

/// The state after one whole game: begin, headers, comments, end.
pub open spec fn run_game(hs: Seq<(Seq<u8>, Seq<u8>)>, cs: Seq<Seq<u8>>) -> Processor {
    end_step(run_comments(run_headers(initial(), hs), cs))
}

/// The time-odds classifier, fed one game's events in order.
#[derive(Clone, Copy, PartialEq, Eq, Structural, Debug)]
pub struct Processor {
    pub row: Row,
    pub scratch: Scratch,
}

impl Processor {
    /// A classifier ready for its first game.
    pub fn new() -> (r: Processor)
        ensures
            r == initial(),
    {
        Processor {
            row: Row {
                white_rating: Rating(0),
                black_rating: Rating(0),
                white_initial_time: 0,
                black_initial_time: 0,
                initial_time: 0,
                increment: 0,
                result: 0,
                termination: 0,
                tournament: false,
            },
            scratch: Scratch {
                moves_with_clk: 0,
                white_time_odds: false,
                black_time_odds: false,
                white_prev_time: 0,
                black_prev_time: 0,
                skip_game: false,
            },
        }
    }

    /// True when the current game has been rejected.
    pub fn skip(&self) -> (r: bool)
        ensures
            r == self.scratch.skip_game,
    {
        self.scratch.skip_game
    }

    /// Begins a new game: every field of row and scratch is reset.
    pub fn begin_game(&mut self)
        ensures
            *final(self) == initial(),
    {
        self.row = Row {
            white_rating: Rating(0),
            black_rating: Rating(0),
            white_initial_time: 0,
            black_initial_time: 0,
            initial_time: 0,
            increment: 0,
            result: 0,
            termination: 0,
            tournament: false,
        };
        self.scratch.reset();
    }

    /// Consumes one header.
    pub fn header(&mut self, key: &[u8], value: &[u8])
        ensures
            *final(self) == header_step(*old(self), key@, value@),
    {
        if self.skip() {
            return;
        }
        if bytes_eq(key, bytes_white_elo().as_slice()) {
            match Rating::try_from(value) {
                Some(rating) => {
                    self.row.white_rating = rating;
                },
                None => {
                    self.scratch.skip_game = true;
                },
            }
        } else if bytes_eq(key, bytes_black_elo().as_slice()) {
            match Rating::try_from(value) {
                Some(rating) => {
                    self.row.black_rating = rating;
                },
                None => {
                    self.scratch.skip_game = true;
                },
            }
        } else if bytes_eq(key, bytes_event().as_slice()) {
            self.row.tournament = contains(value, bytes_tournament().as_slice());
        } else if bytes_eq(key, bytes_time_control().as_slice()) {
            match TimeControl::try_from(value) {
                Some(tc) => {
                    self.row.initial_time = tc.initial_time;
                    self.row.increment = tc.increment;
                },
                None => {
                    self.scratch.skip_game = true;
                },
            }
        } else if bytes_eq(key, bytes_termination().as_slice()) {
            match Termination::try_from(value) {
                Some(Termination::Normal) => {
                    self.row.termination = 0;
                },
                Some(Termination::TimeForfeit) => {
                    self.row.termination = 1;
                },
                Some(_) => {
                    self.scratch.skip_game = true;
                },
                None => {
                    self.scratch.skip_game = true;
                },
            }
        } else if bytes_eq(key, bytes_result().as_slice()) {
            match PgnResult::try_from(value) {
                Some(PgnResult::WhiteWin) => {
                    self.row.result = 2;
                },
                Some(PgnResult::Draw) => {
                    self.row.result = 1;
                },
                Some(PgnResult::BlackWin) => {
                    self.row.result = 0;
                },
                Some(PgnResult::Other) => {
                    self.scratch.skip_game = true;
                },
                None => {
                    self.scratch.skip_game = true;
                },
            }
        }
    }

    /// Decides at the end of the headers whether the game's moves can be
    /// skipped: they can exactly when the game is already rejected.
    pub fn end_headers(&self) -> (r: bool)
        ensures
            r == self.scratch.skip_game,
    {
        self.skip()
    }

    /// Consumes one move comment; only one comment per move is expected.
    pub fn comment(&mut self, c: &[u8])
        ensures
            *final(self) == comment_step(*old(self), c@),
    {
        if self.skip() {
            return;
        }
        match Clock::try_from_comment(c) {
            Some(clock) => {
                let t = clock.total_seconds();
                if self.scratch.moves_with_clk == 0 {
                    if self.row.initial_time != t {
                        self.scratch.white_time_odds = true;
                    }
                    self.row.white_initial_time = t;
                    self.scratch.white_prev_time = t;
                } else if self.scratch.moves_with_clk == 1 {
                    if t == self.row.white_initial_time {
                        self.scratch.skip_game = true;
                        return;
                    }
                    if self.row.initial_time != t {
                        self.scratch.black_time_odds = true;
                    }
                    self.row.black_initial_time = t;
                    self.scratch.black_prev_time = t;
                } else if !self.scratch.white_time_odds && !self.scratch.black_time_odds {
                    self.scratch.skip_game = true;
                    return;
                } else if self.scratch.white_move() {
                    if t as u64 > self.scratch.white_prev_time as u64 + self.row.increment as u64
                        + 1 {
                        self.scratch.skip_game = true;
                        return;
                    }
                    self.scratch.white_prev_time = t;
                } else {
                    if t as u64 > self.scratch.black_prev_time as u64 + self.row.increment as u64
                        + 1 {
                        self.scratch.skip_game = true;
                        return;
                    }
                    self.scratch.black_prev_time = t;
                }
                if self.scratch.moves_with_clk < u64::MAX {
                    self.scratch.moves_with_clk = self.scratch.moves_with_clk + 1;
                }
            },
            None => {
                self.scratch.skip_game = true;
            },
        }
    }

    /// Ends the game: a game in which either side never produced a clock
    /// sample is rejected.
    pub fn end_game(&mut self)
        ensures
            *final(self) == end_step(*old(self)),
    {
        if self.scratch.moves_with_clk < 2 {
            self.scratch.skip_game = true;
        }
    }

    /// Takes the finished row out, leaving a fresh one behind.
    pub fn row(&mut self) -> (r: Row)
        ensures
            r == old(self).row,
            *final(self) == (Processor { row: row_init(), scratch: old(self).scratch }),
    {
        let r = self.row;
        self.row = Row {
            white_rating: Rating(0),
            black_rating: Rating(0),
            white_initial_time: 0,
            black_initial_time: 0,
            initial_time: 0,
            increment: 0,
            result: 0,
            termination: 0,
            tournament: false,
        };
        r
    }
}

/// The seconds reading of the clock in the `j`th comment.
pub open spec fn sample(cs: Seq<Seq<u8>>, j: int) -> int {
    total_seconds_spec(clock_of_comment(cs[j])->Some_0)
}

/// A rejected game stays rejected through any further comments.
pub proof fn lemma_run_comments_rejected(p: Processor, cs: Seq<Seq<u8>>)
    requires
        p.scratch.skip_game,
    ensures
        run_comments(p, cs) == p,
    decreases cs.len(),
{
    if cs.len() > 0 {
        lemma_run_comments_rejected(p, cs.drop_first());
    }
}

/// Headers touch only the row and the reject flag: the rest of the
/// scratch passes through them unchanged, and a rejected game stays
/// rejected.
pub proof fn lemma_run_headers_scratch(p: Processor, hs: Seq<(Seq<u8>, Seq<u8>)>)
    ensures
        ({
            let q = run_headers(p, hs);
            &&& q.scratch.moves_with_clk == p.scratch.moves_with_clk
            &&& q.scratch.white_time_odds == p.scratch.white_time_odds
            &&& q.scratch.black_time_odds == p.scratch.black_time_odds
            &&& q.scratch.white_prev_time == p.scratch.white_prev_time
            &&& q.scratch.black_prev_time == p.scratch.black_prev_time
            &&& (p.scratch.skip_game ==> q.scratch.skip_game)
        }),
    decreases hs.len(),
{
    if hs.len() > 0 {
        lemma_run_headers_scratch(header_step(p, hs[0].0, hs[0].1), hs.drop_first());
    }
}

/// Running the comments is the same as running a prefix and then the
/// rest.
pub proof fn lemma_run_comments_split(p: Processor, cs: Seq<Seq<u8>>, j: int)
    requires
        0 <= j <= cs.len(),
    ensures
        run_comments(p, cs) == run_comments(run_comments(p, cs.take(j)), cs.skip(j)),
    decreases j,
{
    if j == 0 {
        assert(cs.take(0) =~= Seq::<Seq<u8>>::empty());
        assert(cs.skip(0) =~= cs);
    } else {
        let p1 = comment_step(p, cs[0]);
        lemma_run_comments_split(p1, cs.drop_first(), j - 1);
        assert(cs.drop_first().take(j - 1) =~= cs.take(j).drop_first());
        assert(cs.take(j)[0] == cs[0]);
        assert(cs.drop_first().skip(j - 1) =~= cs.skip(j));
        assert(run_comments(p, cs) == run_comments(p1, cs.drop_first()));
        assert(run_comments(p, cs.take(j)) == run_comments(p1, cs.take(j).drop_first()));
    }
}

/// A game whose first two clock samples read the same time is never
/// accepted, whatever the stated control: symmetric odds are not odds.
pub proof fn lemma_symmetric_game_rejected(hs: Seq<(Seq<u8>, Seq<u8>)>, cs: Seq<Seq<u8>>)
    requires
        cs.len() >= 2,
        clock_of_comment(cs[0]) is Some,
        clock_of_comment(cs[1]) is Some,
        sample(cs, 0) == sample(cs, 1),
    ensures
        run_game(hs, cs).scratch.skip_game,
{
    let q = run_headers(initial(), hs);
    lemma_run_headers_scratch(initial(), hs);
    if q.scratch.skip_game {
        lemma_run_comments_rejected(q, cs);
    } else {
        let c1 = comment_step(q, cs[0]);
        assert(c1.row.white_initial_time == sample(cs, 0));
        assert(!c1.scratch.skip_game && c1.scratch.moves_with_clk == 1);
        let c2 = comment_step(c1, cs.drop_first()[0]);
        assert(cs.drop_first()[0] == cs[1]);
        assert(c2.scratch.skip_game);
        lemma_run_comments_rejected(c2, cs.drop_first().drop_first());
        assert(run_comments(q, cs) == run_comments(c1, cs.drop_first()));
        assert(run_comments(c1, cs.drop_first()) == run_comments(
            c2,
            cs.drop_first().drop_first(),
        ));
    }
}

/// After a prefix of clock-bearing comments, a game that is not yet
/// rejected has counted exactly the prefix, kept its increment, and holds
/// each side's latest sample as that side's previous time.
proof fn lemma_sampled_run(p: Processor, cs: Seq<Seq<u8>>, j: int)
    requires
        p.scratch.moves_with_clk == 0,
        0 <= j <= cs.len(),
        j < u64::MAX,
        forall|k: int| 0 <= k < j ==> clock_of_comment(#[trigger] cs[k]) is Some,
    ensures
        ({
            let q = run_comments(p, cs.take(j));
            q.scratch.skip_game || {
                &&& q.row.increment == p.row.increment
                &&& q.scratch.moves_with_clk == j
                &&& (j == 1 ==> q.scratch.white_prev_time == sample(cs, 0))
                &&& (j >= 2 ==> (if j % 2 == 0 {
                    q.scratch.white_prev_time == sample(cs, j - 2)
                        && q.scratch.black_prev_time == sample(cs, j - 1)
                } else {
                    q.scratch.white_prev_time == sample(cs, j - 1)
                        && q.scratch.black_prev_time == sample(cs, j - 2)
                }))
            }
        }),
    decreases j,
{
    if j == 0 {
        assert(cs.take(0) =~= Seq::<Seq<u8>>::empty());
    } else {
        lemma_sampled_run(p, cs, j - 1);
        lemma_run_comments_snoc(p, cs.take(j));
        assert(cs.take(j).drop_last() =~= cs.take(j - 1));
        assert(cs.take(j).last() == cs[j - 1]);
        let q0 = run_comments(p, cs.take(j - 1));
        let q = comment_step(q0, cs[j - 1]);
        if !q0.scratch.skip_game {
            assert(clock_of_comment(cs[j - 1]) is Some);
        }
    }
}

/// Running the comments is the same as running all but the last and then
/// the last.
pub proof fn lemma_run_comments_snoc(p: Processor, cs: Seq<Seq<u8>>)
    requires
        cs.len() > 0,
    ensures
        run_comments(p, cs) == comment_step(run_comments(p, cs.drop_last()), cs.last()),
    decreases cs.len(),
{
    if cs.len() == 1 {
        let p1 = comment_step(p, cs[0]);
        assert(cs.drop_last() =~= Seq::<Seq<u8>>::empty());
        assert(cs.drop_first() =~= Seq::<Seq<u8>>::empty());
        assert(run_comments(p1, cs.drop_first()) == p1);
        assert(run_comments(p, cs) == run_comments(p1, cs.drop_first()));
    } else {
        let p1 = comment_step(p, cs[0]);
        lemma_run_comments_snoc(p1, cs.drop_first());
        assert(cs.drop_first().drop_last() =~= cs.drop_last().drop_first());
        assert(cs.drop_first().last() == cs.last());
        assert(cs.drop_last()[0] == cs[0]);
        assert(run_comments(p, cs) == run_comments(p1, cs.drop_first()));
        assert(run_comments(p, cs.drop_last()) == run_comments(p1, cs.drop_last().drop_first()));
    }
}

/// A game in which some sample at ply two or beyond exceeds the same
/// side's previous sample by more than the stated increment plus one
/// second is never accepted: mid-game time grants are excluded.
pub proof fn lemma_midgame_grant_rejected(hs: Seq<(Seq<u8>, Seq<u8>)>, cs: Seq<Seq<u8>>, i: int)
    requires
        2 <= i < cs.len(),
        i < u64::MAX,
        forall|k: int| 0 <= k <= i ==> clock_of_comment(#[trigger] cs[k]) is Some,
        sample(cs, i) > sample(cs, i - 2) + run_headers(initial(), hs).row.increment + 1,
    ensures
        run_game(hs, cs).scratch.skip_game,
{
    let p = run_headers(initial(), hs);
    lemma_run_headers_scratch(initial(), hs);
    lemma_sampled_run(p, cs, i);
    let q = run_comments(p, cs.take(i));
    let q2 = comment_step(q, cs[i]);
    if !q.scratch.skip_game {
        assert(q.scratch.moves_with_clk == i);
        assert(q2.scratch.skip_game);
    }
    lemma_run_comments_split(p, cs, i);
    assert(cs.skip(i)[0] == cs[i]);
    assert(run_comments(q, cs.skip(i)) == run_comments(q2, cs.skip(i).drop_first()));
    lemma_run_comments_rejected(q2, cs.skip(i).drop_first());
}

} // verus!

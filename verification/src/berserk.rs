//! The berserk classifier: arena tournament games of one or three minutes
//! with no increment, recording which sides halved their own clock.
//!
//! A game qualifies when its event names a tournament, its time control is
//! `60+0` or `180+0`, its termination is normal or a time forfeit, its
//! result is decisive or drawn, and both ratings parse.  A side berserked
//! when its first recorded remaining time is strictly below the stated
//! initial time; the first two clock samples decide, and a game with fewer
//! than two samples is rejected at its end.

use vstd::prelude::*;

use crate::bytes::{bytes_eq, contains, contains_seq};
use crate::comments::{clock_of_comment, total_seconds_spec, Clock};
use crate::headers::{
    bytes_black_elo, bytes_event, bytes_result, bytes_termination, bytes_time_control,
    bytes_tournament, bytes_white_elo, lit_black_elo, lit_event, lit_result, lit_termination,
    lit_time_control, lit_tournament, lit_white_elo, pgn_result_of, rating_of, termination_of,
    time_control_of, PgnResult, Rating, Termination, TimeControl,
};

verus! {

/// One output row: ratings, the time in whole minutes, the berserk code,
/// and the mapped result and termination.
#[derive(Clone, Copy, PartialEq, Eq, Structural, Debug)]
pub struct Row {
    pub white_rating: Rating,
    pub black_rating: Rating,
    pub time: u32,
    pub berserk: u8,
    pub result: u8,
    pub termination: u8,
}

/// Per-game scratch state, reset at every game begin.
#[derive(Clone, Copy, PartialEq, Eq, Structural, Debug)]
pub struct Scratch {
    pub moves_with_clk: u8,
    pub white_berserked: bool,
    pub black_berserked: bool,
    pub skip_game: bool,
}

/// The berserk code: which sides berserked, packed into two bits.
pub open spec fn berserk_code_spec(s: Scratch) -> u8 {
    if s.white_berserked {
        if s.black_berserked {
            3u8
        } else {
            1u8
        }
    } else if s.black_berserked {
        2u8
    } else {
        0u8
    }
}

impl Scratch {
    /// Which sides berserked: 0 neither, 1 white only, 2 black only,
    /// 3 both.
    pub fn berserk_code(&self) -> (r: u8)
        ensures
            r == berserk_code_spec(*self),
    {
        if self.white_berserked {
            if self.black_berserked {
                3
            } else {
                1
            }
        } else if self.black_berserked {
            2
        } else {
            0
        }
    }

    /// Clears the scratch for the next game.
    pub fn reset(&mut self)
        ensures
            *final(self) == scratch_init(),
    {
        self.moves_with_clk = 0;
        self.white_berserked = false;
        self.black_berserked = false;
        self.skip_game = false;
    }
}

/// A fresh row, all fields zero.
pub open spec fn row_init() -> Row {
    Row {
        white_rating: Rating(0),
        black_rating: Rating(0),
        time: 0,
        berserk: 0,
        result: 0,
        termination: 0,
    }
}

/// Fresh scratch state.
pub open spec fn scratch_init() -> Scratch {
    Scratch { moves_with_clk: 0, white_berserked: false, black_berserked: false, skip_game: false }
}

/// The state a game begins in: a fresh row and fresh scratch.  Absent
/// headers thus keep their zero defaults rather than rejecting the game.
pub open spec fn initial() -> Processor {
    Processor { row: row_init(), scratch: scratch_init() }
}

/// The state with the game marked rejected; every later event of the game
/// leaves such a state unchanged.
pub open spec fn rejected(p: Processor) -> Processor {
    Processor { scratch: Scratch { skip_game: true, ..p.scratch }, ..p }
}

/// What one header does to the state.  An unrecognized header is ignored;
/// a recognized one either stores its parsed value or rejects the game.
pub open spec fn header_step(p: Processor, key: Seq<u8>, value: Seq<u8>) -> Processor {
    if p.scratch.skip_game {
        p
    } else if key == lit_white_elo() {
        match rating_of(value) {
            Some(rating) => Processor { row: Row { white_rating: rating, ..p.row }, ..p },
            None => rejected(p),
        }
    } else if key == lit_black_elo() {
        match rating_of(value) {
            Some(rating) => Processor { row: Row { black_rating: rating, ..p.row }, ..p },
            None => rejected(p),
        }
    } else if key == lit_event() {
        if contains_seq(value, lit_tournament()) {
            p
        } else {
            rejected(p)
        }
    } else if key == lit_time_control() {
        match time_control_of(value) {
            Some(tc) => if tc.increment > 0 || (tc.initial_time != 60 && tc.initial_time != 180) {
                rejected(p)
            } else {
                Processor { row: Row { time: tc.initial_time, ..p.row }, ..p }
            },
            None => rejected(p),
        }
    } else if key == lit_termination() {
        match termination_of(value) {
            Some(Termination::Normal) => Processor {
                row: Row { termination: 0, ..p.row },
                ..p
            },
            Some(Termination::TimeForfeit) => Processor {
                row: Row { termination: 1, ..p.row },
                ..p
            },
            Some(_) => rejected(p),
            None => rejected(p),
        }
    } else if key == lit_result() {
        match pgn_result_of(value) {
            Some(PgnResult::WhiteWin) => Processor { row: Row { result: 2, ..p.row }, ..p },
            Some(PgnResult::Draw) => Processor { row: Row { result: 1, ..p.row }, ..p },
            Some(PgnResult::BlackWin) => Processor { row: Row { result: 0, ..p.row }, ..p },
            Some(PgnResult::Other) => rejected(p),
            None => rejected(p),
        }
    } else {
        p
    }
}

/// What one move comment does to the state.  Only the first two clock
/// samples matter; a comment without a readable clock rejects the game.
pub open spec fn comment_step(p: Processor, c: Seq<u8>) -> Processor {
    if p.scratch.skip_game || p.scratch.moves_with_clk >= 2 {
        p
    } else {
        match clock_of_comment(c) {
            Some(clock) => {
                let t = total_seconds_spec(clock);
                let stepped = if p.scratch.moves_with_clk == 0 {
                    if p.row.time > t {
                        Processor {
                            scratch: Scratch { white_berserked: true, ..p.scratch },
                            ..p
                        }
                    } else {
                        p
                    }
                } else {
                    if p.row.time > t {
                        Processor {
                            scratch: Scratch { black_berserked: true, ..p.scratch },
                            ..p
                        }
                    } else {
                        p
                    }
                };
                Processor {
                    scratch: Scratch {
                        moves_with_clk: (stepped.scratch.moves_with_clk + 1) as u8,
                        ..stepped.scratch
                    },
                    ..stepped
                }
            },
            None => rejected(p),
        }
    }
}

/// What the end of the game does to the state: a game with fewer than two
/// clock samples is rejected; otherwise the time becomes whole minutes and
/// the berserk code is fixed.
pub open spec fn end_step(p: Processor) -> Processor {
    if p.scratch.skip_game {
        p
    } else if p.scratch.moves_with_clk < 2 {
        rejected(p)
    } else {
        Processor {
            row: Row {
                time: p.row.time / 60,
                berserk: berserk_code_spec(p.scratch),
                ..p.row
            },
            ..p
        }
    }
}

/// The state after a list of headers, in order.
pub open spec fn run_headers(p: Processor, hs: Seq<(Seq<u8>, Seq<u8>)>) -> Processor
    decreases hs.len(),
{
    if hs.len() == 0 {
        p
    } else {
        run_headers(header_step(p, hs[0].0, hs[0].1), hs.drop_first())
    }
}

/// The state after a list of move comments, in order.
pub open spec fn run_comments(p: Processor, cs: Seq<Seq<u8>>) -> Processor
    decreases cs.len(),
{
    if cs.len() == 0 {
        p
    } else {
        run_comments(comment_step(p, cs[0]), cs.drop_first())
    }
}

/// The state after one whole game: begin, headers, comments, end.
pub open spec fn run_game(hs: Seq<(Seq<u8>, Seq<u8>)>, cs: Seq<Seq<u8>>) -> Processor {
    end_step(run_comments(run_headers(initial(), hs), cs))
}

/// The berserk classifier, fed one game's events in order.
#[derive(Clone, Copy, PartialEq, Eq, Structural, Debug)]
pub struct Processor {
    pub row: Row,
    pub scratch: Scratch,
}

impl Processor {
    /// A classifier ready for its first game.
    pub fn new() -> (r: Processor)
        ensures
            r == initial(),
    {
        Processor {
            row: Row {
                white_rating: Rating(0),
                black_rating: Rating(0),
                time: 0,
                berserk: 0,
                result: 0,
                termination: 0,
            },
            scratch: Scratch {
                moves_with_clk: 0,
                white_berserked: false,
                black_berserked: false,
                skip_game: false,
            },
        }
    }

    /// True when the current game has been rejected.
    pub fn skip(&self) -> (r: bool)
        ensures
            r == self.scratch.skip_game,
    {
        self.scratch.skip_game
    }

    /// Begins a new game: every field of row and scratch is reset.
    pub fn begin_game(&mut self)
        ensures
            *final(self) == initial(),
    {
        self.row = Row {
            white_rating: Rating(0),
            black_rating: Rating(0),
            time: 0,
            berserk: 0,
            result: 0,
            termination: 0,
        };
        self.scratch.reset();
    }

    /// Consumes one header.
    pub fn header(&mut self, key: &[u8], value: &[u8])
        ensures
            *final(self) == header_step(*old(self), key@, value@),
    {
        if self.skip() {
            return;
        }
        if bytes_eq(key, bytes_white_elo().as_slice()) {
            match Rating::try_from(value) {
                Some(rating) => {
                    self.row.white_rating = rating;
                },
                None => {
                    self.scratch.skip_game = true;
                },
            }
        } else if bytes_eq(key, bytes_black_elo().as_slice()) {
            match Rating::try_from(value) {
                Some(rating) => {
                    self.row.black_rating = rating;
                },
                None => {
                    self.scratch.skip_game = true;
                },
            }
        } else if bytes_eq(key, bytes_event().as_slice()) {
            if !contains(value, bytes_tournament().as_slice()) {
                self.scratch.skip_game = true;
            }
        } else if bytes_eq(key, bytes_time_control().as_slice()) {
            match TimeControl::try_from(value) {
                Some(tc) => {
                    if tc.increment > 0 || (tc.initial_time != 60 && tc.initial_time != 180) {
                        self.scratch.skip_game = true;
                        return;
                    }
                    self.row.time = tc.initial_time;
                },
                None => {
                    self.scratch.skip_game = true;
                },
            }
        } else if bytes_eq(key, bytes_termination().as_slice()) {
            match Termination::try_from(value) {
                Some(Termination::Normal) => {
                    self.row.termination = 0;
                },
                Some(Termination::TimeForfeit) => {
                    self.row.termination = 1;
                },
                Some(_) => {
                    self.scratch.skip_game = true;
                },
                None => {
                    self.scratch.skip_game = true;
                },
            }
        } else if bytes_eq(key, bytes_result().as_slice()) {
            match PgnResult::try_from(value) {
                Some(PgnResult::WhiteWin) => {
                    self.row.result = 2;
                },
                Some(PgnResult::Draw) => {
                    self.row.result = 1;
                },
                Some(PgnResult::BlackWin) => {
                    self.row.result = 0;
                },
                Some(PgnResult::Other) => {
                    self.scratch.skip_game = true;
                },
                None => {
                    self.scratch.skip_game = true;
                },
            }
        }
    }

    /// Decides at the end of the headers whether the game's moves can be
    /// skipped: they can exactly when the game is already rejected.
    pub fn end_headers(&self) -> (r: bool)
        ensures
            r == self.scratch.skip_game,
    {
        self.skip()
    }

    /// Consumes one move comment; only one comment per move is expected.
    pub fn comment(&mut self, c: &[u8])
        ensures
            *final(self) == comment_step(*old(self), c@),
    {
        if self.skip() || self.scratch.moves_with_clk >= 2 {
            return;
        }
        match Clock::try_from_comment(c) {
            Some(clock) => {
                let t = clock.total_seconds();
                if self.scratch.moves_with_clk == 0 {
                    if self.row.time > t {
                        self.scratch.white_berserked = true;
                    }
                } else {
                    if self.row.time > t {
                        self.scratch.black_berserked = true;
                    }
                }
                self.scratch.moves_with_clk += 1;
            },
            None => {
                self.scratch.skip_game = true;
            },
        }
    }

    /// Ends the game: rejects it when fewer than two clock samples were
    /// seen, and otherwise fixes the row's time and berserk code.
    pub fn end_game(&mut self)
        ensures
            *final(self) == end_step(*old(self)),
    {
        if self.skip() {
            return;
        }
        if self.scratch.moves_with_clk < 2 {
            self.scratch.skip_game = true;
            return;
        }
        self.row.time = self.row.time / 60;
        self.row.berserk = self.scratch.berserk_code();
    }

    /// Takes the finished row out, leaving a fresh one behind.
    pub fn row(&mut self) -> (r: Row)
        ensures
            r == old(self).row,
            *final(self) == (Processor { row: row_init(), scratch: old(self).scratch }),
    {
        let r = self.row;
        self.row = Row {
            white_rating: Rating(0),
            black_rating: Rating(0),
            time: 0,
            berserk: 0,
            result: 0,
            termination: 0,
        };
        r
    }
}

/// True when some header in the list bears the given name.
pub open spec fn has_key(hs: Seq<(Seq<u8>, Seq<u8>)>, key: Seq<u8>) -> bool {
    exists|j: int| 0 <= j < hs.len() && hs[j].0 == key
}

/// A header list bears a name exactly when its first header does or the
/// rest of the list does.
pub proof fn lemma_has_key_unfold(hs: Seq<(Seq<u8>, Seq<u8>)>, key: Seq<u8>)
    requires
        hs.len() > 0,
    ensures
        has_key(hs, key) <==> (hs[0].0 == key || has_key(hs.drop_first(), key)),
{
    if has_key(hs, key) {
        let j = choose|j: int| 0 <= j < hs.len() && hs[j].0 == key;
        if j > 0 {
            assert(hs.drop_first()[j - 1].0 == key);
        }
    }
    if hs.len() > 0 && has_key(hs.drop_first(), key) {
        let j = choose|j: int| 0 <= j < hs.drop_first().len() && hs.drop_first()[j].0 == key;
        assert(hs[j + 1].0 == key);
    }
}

/// A rejected game stays rejected through any further headers.
pub proof fn lemma_run_headers_rejected(p: Processor, hs: Seq<(Seq<u8>, Seq<u8>)>)
    requires
        p.scratch.skip_game,
    ensures
        run_headers(p, hs) == p,
    decreases hs.len(),
{
    if hs.len() > 0 {
        lemma_run_headers_rejected(p, hs.drop_first());
    }
}

/// A rejected game stays rejected through any further comments.
pub proof fn lemma_run_comments_rejected(p: Processor, cs: Seq<Seq<u8>>)
    requires
        p.scratch.skip_game,
    ensures
        run_comments(p, cs) == p,
    decreases cs.len(),
{
    if cs.len() > 0 {
        lemma_run_comments_rejected(p, cs.drop_first());
    }
}

/// Once two clock samples are in and the game is not rejected, further
/// comments change nothing.
pub proof fn lemma_run_comments_settled(p: Processor, cs: Seq<Seq<u8>>)
    requires
        p.scratch.moves_with_clk >= 2,
    ensures
        run_comments(p, cs) == p,
    decreases cs.len(),
{
    if cs.len() > 0 {
        lemma_run_comments_settled(p, cs.drop_first());
    }
}

/// A game whose time control has a positive increment is never accepted:
/// whatever else the game holds, the classifier ends it rejected and so
/// emits no row.
pub proof fn lemma_increment_game_rejected(
    hs: Seq<(Seq<u8>, Seq<u8>)>,
    cs: Seq<Seq<u8>>,
    i: int,
)
    requires
        0 <= i < hs.len(),
        hs[i].0 == lit_time_control(),
        time_control_of(hs[i].1) is Some,
        time_control_of(hs[i].1)->Some_0.increment > 0,
    ensures
        run_game(hs, cs).scratch.skip_game,
{
    lemma_headers_increment_rejects(initial(), hs, i);
    let q = run_headers(initial(), hs);
    lemma_run_comments_rejected(q, cs);
}

/// Processing a header list that holds a positive-increment time control
/// leaves the game rejected, from any starting state.
proof fn lemma_headers_increment_rejects(p: Processor, hs: Seq<(Seq<u8>, Seq<u8>)>, i: int)
    requires
        0 <= i < hs.len(),
        hs[i].0 == lit_time_control(),
        time_control_of(hs[i].1) is Some,
        time_control_of(hs[i].1)->Some_0.increment > 0,
    ensures
        run_headers(p, hs).scratch.skip_game,
    decreases hs.len(),
{
    let q = header_step(p, hs[0].0, hs[0].1);
    if i == 0 {
        assert(q.scratch.skip_game);
        lemma_run_headers_rejected(q, hs.drop_first());
    } else {
        assert(hs.drop_first()[i - 1] == hs[i]);
        lemma_headers_increment_rejects(q, hs.drop_first(), i - 1);
    }
}

/// True when a recognized header bears the value a normally-won one-minute
/// tournament game has: the event names a tournament, the time control is
/// `60+0`, the termination is normal, the result is a white win, and the
/// ratings parse.  Unrecognized headers may bear anything.
pub open spec fn one_minute_win_header(key: Seq<u8>, value: Seq<u8>) -> bool {
    &&& key == lit_white_elo() ==> rating_of(value) is Some
    &&& key == lit_black_elo() ==> rating_of(value) is Some
    &&& key == lit_event() ==> contains_seq(value, lit_tournament())
    &&& key == lit_time_control() ==> time_control_of(value) == Some(
        TimeControl { initial_time: 60, increment: 0 },
    )
    &&& key == lit_termination() ==> termination_of(value) == Some(Termination::Normal)
    &&& key == lit_result() ==> pgn_result_of(value) == Some(PgnResult::WhiteWin)
}

/// Folding headers that all bear one-minute-win values keeps the game
/// accepted, leaves the scratch untouched, and pins the row's time and
/// result once their headers have been seen.
proof fn lemma_one_minute_headers(p: Processor, hs: Seq<(Seq<u8>, Seq<u8>)>)
    requires
        forall|j: int| 0 <= j < hs.len() ==> one_minute_win_header(#[trigger] hs[j].0, hs[j].1),
        !p.scratch.skip_game,
        p.row.termination == 0,
    ensures
        ({
            let q = run_headers(p, hs);
            &&& !q.scratch.skip_game
            &&& q.scratch == p.scratch
            &&& q.row.termination == 0
            &&& q.row.result == if has_key(hs, lit_result()) {
                2u8
            } else {
                p.row.result
            }
            &&& q.row.time == if has_key(hs, lit_time_control()) {
                60u32
            } else {
                p.row.time
            }
        }),
    decreases hs.len(),
{
    if hs.len() > 0 {
        assert(one_minute_win_header(hs[0].0, hs[0].1));
        let q0 = header_step(p, hs[0].0, hs[0].1);
        assert(!q0.scratch.skip_game);
        assert forall|j: int| 0 <= j < hs.drop_first().len() implies one_minute_win_header(
            #[trigger] hs.drop_first()[j].0,
            hs.drop_first()[j].1,
        ) by {
            assert(hs.drop_first()[j] == hs[j + 1]);
        }
        lemma_one_minute_headers(q0, hs.drop_first());
        lemma_has_key_unfold(hs, lit_result());
        lemma_has_key_unfold(hs, lit_time_control());
    }
}

/// A normally-won one-minute tournament game whose first two clock samples
/// both lie strictly below the initial minute is accepted with both sides
/// marked berserk: the row reads one minute, berserk code 3, a white win,
/// and a normal termination.
pub proof fn lemma_double_berserk_row(hs: Seq<(Seq<u8>, Seq<u8>)>, cs: Seq<Seq<u8>>)
    requires
        forall|j: int| 0 <= j < hs.len() ==> one_minute_win_header(#[trigger] hs[j].0, hs[j].1),
        has_key(hs, lit_time_control()),
        has_key(hs, lit_result()),
        cs.len() >= 2,
        clock_of_comment(cs[0]) is Some,
        total_seconds_spec(clock_of_comment(cs[0])->Some_0) < 60,
        clock_of_comment(cs[1]) is Some,
        total_seconds_spec(clock_of_comment(cs[1])->Some_0) < 60,
    ensures
        ({
            let g = run_game(hs, cs);
            &&& !g.scratch.skip_game
            &&& g.row.time == 1
            &&& g.row.berserk == 3
            &&& g.row.result == 2
            &&& g.row.termination == 0
        }),
{
    lemma_one_minute_headers(initial(), hs);
    let q = run_headers(initial(), hs);
    let c1 = comment_step(q, cs[0]);
    assert(c1.scratch.white_berserked && c1.scratch.moves_with_clk == 1);
    let c2 = comment_step(c1, cs.drop_first()[0]);
    assert(cs.drop_first()[0] == cs[1]);
    assert(c2.scratch.black_berserked && c2.scratch.moves_with_clk == 2);
    lemma_run_comments_settled(c2, cs.drop_first().drop_first());
    assert(run_comments(q, cs) == run_comments(c1, cs.drop_first()));
    assert(run_comments(c1, cs.drop_first()) == run_comments(c2, cs.drop_first().drop_first()));
    assert(run_comments(q, cs) == c2);
}

} // verus!

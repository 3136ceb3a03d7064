//! The blitz extractor: a pure header projection of rated blitz games.
//!
//! A game qualifies when its event is exactly `Rated Blitz game` and its
//! result, ratings and rating changes all parse.  No move-level state
//! exists: the row copies player names, ratings, rating changes, the UTC
//! date and time, and maps the result to a sign.

use vstd::prelude::*;

use crate::bytes::{bytes_eq, sub_vec};
use crate::headers::{
    bytes_black, bytes_black_elo, bytes_black_rating_diff, bytes_event, bytes_rated_blitz,
    bytes_result, bytes_utc_date, bytes_utc_time, bytes_white, bytes_white_elo,
    bytes_white_rating_diff, lit_black, lit_black_elo, lit_black_rating_diff, lit_event,
    lit_rated_blitz, lit_result, lit_utc_date, lit_utc_time, lit_white, lit_white_elo,
    lit_white_rating_diff, pgn_result_of, rating_diff_of, rating_of, PgnResult, Rating,
    RatingDiff,
};

verus! {

/// One output row: the players, the result sign, the UTC date and time,
/// the ratings, and the rating changes.
pub struct Row {
    pub white: Vec<u8>,
    pub black: Vec<u8>,
    pub result: i8,
    pub utc_date: Vec<u8>,
    pub utc_time: Vec<u8>,
    pub white_elo: Rating,
    pub black_elo: Rating,
    pub white_rating_diff: RatingDiff,
    pub black_rating_diff: RatingDiff,
}

/// The mathematical reading of a row: its byte fields as sequences.
pub struct RowV {
    pub white: Seq<u8>,
    pub black: Seq<u8>,
    pub result: i8,
    pub utc_date: Seq<u8>,
    pub utc_time: Seq<u8>,
    pub white_elo: Rating,
    pub black_elo: Rating,
    pub white_rating_diff: RatingDiff,
    pub black_rating_diff: RatingDiff,
}

impl View for Row {
    type V = RowV;

    open spec fn view(&self) -> RowV {
        RowV {
            white: self.white@,
            black: self.black@,
            result: self.result,
            utc_date: self.utc_date@,
            utc_time: self.utc_time@,
            white_elo: self.white_elo,
            black_elo: self.black_elo,
            white_rating_diff: self.white_rating_diff,
            black_rating_diff: self.black_rating_diff,
        }
    }
}

/// Per-game scratch state, reset at every game begin.
#[derive(Clone, Copy, PartialEq, Eq, Structural, Debug)]
pub struct Scratch {
    pub skip_game: bool,
}

impl Scratch {
    /// Clears the scratch for the next game.
    pub fn reset(&mut self)
        ensures
            *final(self) == (Scratch { skip_game: false }),
    {
        self.skip_game = false;
    }
}

/// A fresh row: empty names and dates, zero numbers.
pub open spec fn row_init() -> RowV {
    RowV {
        white: Seq::empty(),
        black: Seq::empty(),
        result: 0,
        utc_date: Seq::empty(),
        utc_time: Seq::empty(),
        white_elo: Rating(0),
        black_elo: Rating(0),
        white_rating_diff: RatingDiff(0),
        black_rating_diff: RatingDiff(0),
    }
}

/// The mathematical reading of the whole classifier state.
pub struct StateV {
    pub row: RowV,
    pub skip_game: bool,
}

/// The state a game begins in.
pub open spec fn initial() -> StateV {
    StateV { row: row_init(), skip_game: false }
}

/// The state with the game marked rejected.
pub open spec fn rejected(s: StateV) -> StateV {
    StateV { skip_game: true, ..s }
}

/// What one header does to the state: the event must read exactly
/// `Rated Blitz game`; names and dates are copied; numbers and the result
/// must parse.
pub open spec fn header_step(s: StateV, key: Seq<u8>, value: Seq<u8>) -> StateV {
    if s.skip_game {
        s
    } else if key == lit_event() {
        if value == lit_rated_blitz() {
            s
        } else {
            rejected(s)
        }
    } else if key == lit_white() {
        StateV { row: RowV { white: value, ..s.row }, ..s }
    } else if key == lit_black() {
        StateV { row: RowV { black: value, ..s.row }, ..s }
    } else if key == lit_result() {
        match pgn_result_of(value) {
            Some(PgnResult::WhiteWin) => StateV { row: RowV { result: 1, ..s.row }, ..s },
            Some(PgnResult::Draw) => StateV { row: RowV { result: 0, ..s.row }, ..s },
            Some(PgnResult::BlackWin) => StateV { row: RowV { result: -1i8, ..s.row }, ..s },
            Some(PgnResult::Other) => rejected(s),
            None => rejected(s),
        }
    } else if key == lit_utc_date() {
        StateV { row: RowV { utc_date: value, ..s.row }, ..s }
    } else if key == lit_utc_time() {
        StateV { row: RowV { utc_time: value, ..s.row }, ..s }
    } else if key == lit_white_elo() {
        match rating_of(value) {
            Some(rating) => StateV { row: RowV { white_elo: rating, ..s.row }, ..s },
            None => rejected(s),
        }
    } else if key == lit_black_elo() {
        match rating_of(value) {
            Some(rating) => StateV { row: RowV { black_elo: rating, ..s.row }, ..s },
            None => rejected(s),
        }
    } else if key == lit_white_rating_diff() {
        match rating_diff_of(value) {
            Some(diff) => StateV { row: RowV { white_rating_diff: diff, ..s.row }, ..s },
            None => rejected(s),
        }
    } else if key == lit_black_rating_diff() {
        match rating_diff_of(value) {
            Some(diff) => StateV { row: RowV { black_rating_diff: diff, ..s.row }, ..s },
            None => rejected(s),
        }
    } else {
        s
    }
}

/// The state after a list of headers, in order.
pub open spec fn run_headers(s: StateV, hs: Seq<(Seq<u8>, Seq<u8>)>) -> StateV
    decreases hs.len(),
{
    if hs.len() == 0 {
        s
    } else {
        run_headers(header_step(s, hs[0].0, hs[0].1), hs.drop_first())
    }
}

/// The state after a list of move comments: comments carry nothing the
/// blitz extractor reads.
pub open spec fn run_comments(s: StateV, cs: Seq<Seq<u8>>) -> StateV
    decreases cs.len(),
{
    if cs.len() == 0 {
        s
    } else {
        run_comments(s, cs.drop_first())
    }
}

/// The state after one whole game: begin, headers, comments, end; the
/// end of a game changes nothing here.
pub open spec fn run_game(hs: Seq<(Seq<u8>, Seq<u8>)>, cs: Seq<Seq<u8>>) -> StateV {
    run_comments(run_headers(initial(), hs), cs)
}

/// The blitz extractor, fed one game's events in order.
pub struct Processor {
    pub row: Row,
    pub scratch: Scratch,
}

impl View for Processor {
    type V = StateV;

    open spec fn view(&self) -> StateV {
        StateV { row: self.row@, skip_game: self.scratch.skip_game }
    }
}

impl Processor {
    /// A classifier ready for its first game.
    pub fn new() -> (r: Processor)
        ensures
            r@ == initial(),
    {
        let r = Processor {
            row: Row {
                white: Vec::new(),
                black: Vec::new(),
                result: 0,
                utc_date: Vec::new(),
                utc_time: Vec::new(),
                white_elo: Rating(0),
                black_elo: Rating(0),
                white_rating_diff: RatingDiff(0),
                black_rating_diff: RatingDiff(0),
            },
            scratch: Scratch { skip_game: false },
        };
        proof {
            assert(r@.row.white =~= row_init().white);
            assert(r@.row.black =~= row_init().black);
            assert(r@.row.utc_date =~= row_init().utc_date);
            assert(r@.row.utc_time =~= row_init().utc_time);
        }
        r
    }

    /// True when the current game has been rejected.
    pub fn skip(&self) -> (r: bool)
        ensures
            r == self@.skip_game,
    {
        self.scratch.skip_game
    }

    /// Begins a new game: every field of row and scratch is reset.
    pub fn begin_game(&mut self)
        ensures
            final(self)@ == initial(),
    {
        let fresh = Processor::new();
        *self = fresh;
    }

    /// Consumes one header.
    pub fn header(&mut self, key: &[u8], value: &[u8])
        ensures
            final(self)@ == header_step(old(self)@, key@, value@),
    {
        if self.skip() {
            return;
        }
        let n = value.len();
        if bytes_eq(key, bytes_event().as_slice()) {
            if !bytes_eq(value, bytes_rated_blitz().as_slice()) {
                self.scratch.skip_game = true;
            }
        } else if bytes_eq(key, bytes_white().as_slice()) {
            self.row.white = sub_vec(value, 0, n);
            proof {
                assert(self.row.white@ =~= value@);
            }
        } else if bytes_eq(key, bytes_black().as_slice()) {
            self.row.black = sub_vec(value, 0, n);
            proof {
                assert(self.row.black@ =~= value@);
            }
        } else if bytes_eq(key, bytes_result().as_slice()) {
            match PgnResult::try_from(value) {
                Some(PgnResult::WhiteWin) => {
                    self.row.result = 1;
                },
                Some(PgnResult::Draw) => {
                    self.row.result = 0;
                },
                Some(PgnResult::BlackWin) => {
                    self.row.result = -1;
                },
                Some(PgnResult::Other) => {
                    self.scratch.skip_game = true;
                },
                None => {
                    self.scratch.skip_game = true;
                },
            }
        } else if bytes_eq(key, bytes_utc_date().as_slice()) {
            self.row.utc_date = sub_vec(value, 0, n);
            proof {
                assert(self.row.utc_date@ =~= value@);
            }
        } else if bytes_eq(key, bytes_utc_time().as_slice()) {
            self.row.utc_time = sub_vec(value, 0, n);
            proof {
                assert(self.row.utc_time@ =~= value@);
            }
        } else if bytes_eq(key, bytes_white_elo().as_slice()) {
            match Rating::try_from(value) {
                Some(rating) => {
                    self.row.white_elo = rating;
                },
                None => {
                    self.scratch.skip_game = true;
                },
            }
        } else if bytes_eq(key, bytes_black_elo().as_slice()) {
            match Rating::try_from(value) {
                Some(rating) => {
                    self.row.black_elo = rating;
                },
                None => {
                    self.scratch.skip_game = true;
                },
            }
        } else if bytes_eq(key, bytes_white_rating_diff().as_slice()) {
            match RatingDiff::try_from(value) {
                Some(diff) => {
                    self.row.white_rating_diff = diff;
                },
                None => {
                    self.scratch.skip_game = true;
                },
            }
        } else if bytes_eq(key, bytes_black_rating_diff().as_slice()) {
            match RatingDiff::try_from(value) {
                Some(diff) => {
                    self.row.black_rating_diff = diff;
                },
                None => {
                    self.scratch.skip_game = true;
                },
            }
        }
    }

    /// Decides at the end of the headers whether the game's moves can be
    /// skipped: they can exactly when the game is already rejected.
    pub fn end_headers(&self) -> (r: bool)
        ensures
            r == self@.skip_game,
    {
        self.skip()
    }

    /// Consumes one move comment; the blitz extractor reads nothing from
    /// it.
    pub fn comment(&mut self, c: &[u8])
        ensures
            *final(self) == *old(self),
    {
    }

    /// Ends the game; the blitz extractor decides everything from the
    /// headers alone.
    pub fn end_game(&mut self)
        ensures
            *final(self) == *old(self),
    {
    }

    /// Takes the finished row out, leaving a fresh one behind.
    pub fn row(&mut self) -> (r: Row)
        ensures
            r@ == old(self)@.row,
            final(self)@.row == row_init(),
            final(self)@.skip_game == old(self)@.skip_game,
    {
        let mut fresh = Processor::new();
        core::mem::swap(&mut self.row, &mut fresh.row);
        fresh.row
    }
}

/// The blitz row is a pure projection of the headers: comments and the
/// game's end never touch it, so games with identical header values
/// yield identical states whatever their moves hold.
pub proof fn lemma_header_projection(
    hs: Seq<(Seq<u8>, Seq<u8>)>,
    cs1: Seq<Seq<u8>>,
    cs2: Seq<Seq<u8>>,
)
    ensures
        run_game(hs, cs1) == run_game(hs, cs2),
        run_game(hs, cs1) == run_headers(initial(), hs),
{
    lemma_run_comments_noop(run_headers(initial(), hs), cs1);
    lemma_run_comments_noop(run_headers(initial(), hs), cs2);
}

/// Comments change nothing in the blitz extractor.
pub proof fn lemma_run_comments_noop(s: StateV, cs: Seq<Seq<u8>>)
    ensures
        run_comments(s, cs) == s,
    decreases cs.len(),
{
    if cs.len() > 0 {
        lemma_run_comments_noop(s, cs.drop_first());
    }
}

/// A rejected game stays rejected through any further headers.
pub proof fn lemma_run_headers_rejected(s: StateV, hs: Seq<(Seq<u8>, Seq<u8>)>)
    requires
        s.skip_game,
    ensures
        run_headers(s, hs) == s,
    decreases hs.len(),
{
    if hs.len() > 0 {
        lemma_run_headers_rejected(s, hs.drop_first());
    }
}

} // verus!

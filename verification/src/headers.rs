//! Typed header values: ratings, the time control, termination and result.
//!
//! Every header arrives as a raw byte string.  A value is parsed only when
//! its header is observed; a value that does not parse rejects the game in
//! every classifier that reads it.  This module also holds, as byte
//! sequences, the header names and the header values the classifiers
//! compare against.

use vstd::prelude::*;

use crate::bytes::{
    bytes_eq, decimal_of, i16_of, parse_i16, parse_u16, parse_u32, signed_decimal_of,
    split_once, split_once_spec, u16_of, u32_of,
};

verus! {

/// The bytes `WhiteElo`: the white rating header.
pub open spec fn lit_white_elo() -> Seq<u8> {
    seq!['W' as u8, 'h' as u8, 'i' as u8, 't' as u8, 'e' as u8, 'E' as u8, 'l' as u8, 'o' as u8]
}

/// The bytes `WhiteElo` as a vector.
pub fn bytes_white_elo() -> (r: Vec<u8>)
    ensures
        r@ == lit_white_elo(),
{
    let v: Vec<u8> = vec!['W' as u8, 'h' as u8, 'i' as u8, 't' as u8, 'e' as u8, 'E' as u8, 'l' as u8, 'o' as u8];
    proof {
        assert(v@ =~= lit_white_elo());
    }
    v
}

/// The bytes `BlackElo`: the black rating header.
pub open spec fn lit_black_elo() -> Seq<u8> {
    seq!['B' as u8, 'l' as u8, 'a' as u8, 'c' as u8, 'k' as u8, 'E' as u8, 'l' as u8, 'o' as u8]
}

/// The bytes `BlackElo` as a vector.
pub fn bytes_black_elo() -> (r: Vec<u8>)
    ensures
        r@ == lit_black_elo(),
{
    let v: Vec<u8> = vec!['B' as u8, 'l' as u8, 'a' as u8, 'c' as u8, 'k' as u8, 'E' as u8, 'l' as u8, 'o' as u8];
    proof {
        assert(v@ =~= lit_black_elo());
    }
    v
}

/// The bytes `Event`: the event header.
pub open spec fn lit_event() -> Seq<u8> {
    seq!['E' as u8, 'v' as u8, 'e' as u8, 'n' as u8, 't' as u8]
}

/// The bytes `Event` as a vector.
pub fn bytes_event() -> (r: Vec<u8>)
    ensures
        r@ == lit_event(),
{
    let v: Vec<u8> = vec!['E' as u8, 'v' as u8, 'e' as u8, 'n' as u8, 't' as u8];
    proof {
        assert(v@ =~= lit_event());
    }
    v
}

/// The bytes `TimeControl`: the time control header.
pub open spec fn lit_time_control() -> Seq<u8> {
    seq!['T' as u8, 'i' as u8, 'm' as u8, 'e' as u8, 'C' as u8, 'o' as u8, 'n' as u8, 't' as u8, 'r' as u8, 'o' as u8, 'l' as u8]
}

/// The bytes `TimeControl` as a vector.
pub fn bytes_time_control() -> (r: Vec<u8>)
    ensures
        r@ == lit_time_control(),
{
    let v: Vec<u8> = vec!['T' as u8, 'i' as u8, 'm' as u8, 'e' as u8, 'C' as u8, 'o' as u8, 'n' as u8, 't' as u8, 'r' as u8, 'o' as u8, 'l' as u8];
    proof {
        assert(v@ =~= lit_time_control());
    }
    v
}

/// The bytes `Termination`: the termination header.
pub open spec fn lit_termination() -> Seq<u8> {
    seq!['T' as u8, 'e' as u8, 'r' as u8, 'm' as u8, 'i' as u8, 'n' as u8, 'a' as u8, 't' as u8, 'i' as u8, 'o' as u8, 'n' as u8]
}

/// The bytes `Termination` as a vector.
pub fn bytes_termination() -> (r: Vec<u8>)
    ensures
        r@ == lit_termination(),
{
    let v: Vec<u8> = vec!['T' as u8, 'e' as u8, 'r' as u8, 'm' as u8, 'i' as u8, 'n' as u8, 'a' as u8, 't' as u8, 'i' as u8, 'o' as u8, 'n' as u8];
    proof {
        assert(v@ =~= lit_termination());
    }
    v
}

/// The bytes `Result`: the result header.
pub open spec fn lit_result() -> Seq<u8> {
    seq!['R' as u8, 'e' as u8, 's' as u8, 'u' as u8, 'l' as u8, 't' as u8]
}

/// The bytes `Result` as a vector.
pub fn bytes_result() -> (r: Vec<u8>)
    ensures
        r@ == lit_result(),
{
    let v: Vec<u8> = vec!['R' as u8, 'e' as u8, 's' as u8, 'u' as u8, 'l' as u8, 't' as u8];
    proof {
        assert(v@ =~= lit_result());
    }
    v
}

/// The bytes `White`: the white player header.
pub open spec fn lit_white() -> Seq<u8> {
    seq!['W' as u8, 'h' as u8, 'i' as u8, 't' as u8, 'e' as u8]
}

/// The bytes `White` as a vector.
pub fn bytes_white() -> (r: Vec<u8>)
    ensures
        r@ == lit_white(),
{
    let v: Vec<u8> = vec!['W' as u8, 'h' as u8, 'i' as u8, 't' as u8, 'e' as u8];
    proof {
        assert(v@ =~= lit_white());
    }
    v
}

/// The bytes `Black`: the black player header.
pub open spec fn lit_black() -> Seq<u8> {
    seq!['B' as u8, 'l' as u8, 'a' as u8, 'c' as u8, 'k' as u8]
}

/// The bytes `Black` as a vector.
pub fn bytes_black() -> (r: Vec<u8>)
    ensures
        r@ == lit_black(),
{
    let v: Vec<u8> = vec!['B' as u8, 'l' as u8, 'a' as u8, 'c' as u8, 'k' as u8];
    proof {
        assert(v@ =~= lit_black());
    }
    v
}

/// The bytes `UTCDate`: the UTC date header.
pub open spec fn lit_utc_date() -> Seq<u8> {
    seq!['U' as u8, 'T' as u8, 'C' as u8, 'D' as u8, 'a' as u8, 't' as u8, 'e' as u8]
}

/// The bytes `UTCDate` as a vector.
pub fn bytes_utc_date() -> (r: Vec<u8>)
    ensures
        r@ == lit_utc_date(),
{
    let v: Vec<u8> = vec!['U' as u8, 'T' as u8, 'C' as u8, 'D' as u8, 'a' as u8, 't' as u8, 'e' as u8];
    proof {
        assert(v@ =~= lit_utc_date());
    }
    v
}

/// The bytes `UTCTime`: the UTC time header.
pub open spec fn lit_utc_time() -> Seq<u8> {
    seq!['U' as u8, 'T' as u8, 'C' as u8, 'T' as u8, 'i' as u8, 'm' as u8, 'e' as u8]
}

/// The bytes `UTCTime` as a vector.
pub fn bytes_utc_time() -> (r: Vec<u8>)
    ensures
        r@ == lit_utc_time(),
{
    let v: Vec<u8> = vec!['U' as u8, 'T' as u8, 'C' as u8, 'T' as u8, 'i' as u8, 'm' as u8, 'e' as u8];
    proof {
        assert(v@ =~= lit_utc_time());
    }
    v
}

/// The bytes `WhiteRatingDiff`: the white rating change header.
pub open spec fn lit_white_rating_diff() -> Seq<u8> {
    seq!['W' as u8, 'h' as u8, 'i' as u8, 't' as u8, 'e' as u8, 'R' as u8, 'a' as u8, 't' as u8, 'i' as u8, 'n' as u8, 'g' as u8, 'D' as u8, 'i' as u8, 'f' as u8, 'f' as u8]
}

/// The bytes `WhiteRatingDiff` as a vector.
pub fn bytes_white_rating_diff() -> (r: Vec<u8>)
    ensures
        r@ == lit_white_rating_diff(),
{
    let v: Vec<u8> = vec!['W' as u8, 'h' as u8, 'i' as u8, 't' as u8, 'e' as u8, 'R' as u8, 'a' as u8, 't' as u8, 'i' as u8, 'n' as u8, 'g' as u8, 'D' as u8, 'i' as u8, 'f' as u8, 'f' as u8];
    proof {
        assert(v@ =~= lit_white_rating_diff());
    }
    v
}

/// The bytes `BlackRatingDiff`: the black rating change header.
pub open spec fn lit_black_rating_diff() -> Seq<u8> {
    seq!['B' as u8, 'l' as u8, 'a' as u8, 'c' as u8, 'k' as u8, 'R' as u8, 'a' as u8, 't' as u8, 'i' as u8, 'n' as u8, 'g' as u8, 'D' as u8, 'i' as u8, 'f' as u8, 'f' as u8]
}

/// The bytes `BlackRatingDiff` as a vector.
pub fn bytes_black_rating_diff() -> (r: Vec<u8>)
    ensures
        r@ == lit_black_rating_diff(),
{
    let v: Vec<u8> = vec!['B' as u8, 'l' as u8, 'a' as u8, 'c' as u8, 'k' as u8, 'R' as u8, 'a' as u8, 't' as u8, 'i' as u8, 'n' as u8, 'g' as u8, 'D' as u8, 'i' as u8, 'f' as u8, 'f' as u8];
    proof {
        assert(v@ =~= lit_black_rating_diff());
    }
    v
}

/// The bytes `tournament`: the event fragment marking arena games.
pub open spec fn lit_tournament() -> Seq<u8> {
    seq!['t' as u8, 'o' as u8, 'u' as u8, 'r' as u8, 'n' as u8, 'a' as u8, 'm' as u8, 'e' as u8, 'n' as u8, 't' as u8]
}

/// The bytes `tournament` as a vector.
pub fn bytes_tournament() -> (r: Vec<u8>)
    ensures
        r@ == lit_tournament(),
{
    let v: Vec<u8> = vec!['t' as u8, 'o' as u8, 'u' as u8, 'r' as u8, 'n' as u8, 'a' as u8, 'm' as u8, 'e' as u8, 'n' as u8, 't' as u8];
    proof {
        assert(v@ =~= lit_tournament());
    }
    v
}

/// The bytes `Rated Blitz game`: the event naming rated blitz games.
pub open spec fn lit_rated_blitz() -> Seq<u8> {
    seq!['R' as u8, 'a' as u8, 't' as u8, 'e' as u8, 'd' as u8, ' ' as u8, 'B' as u8, 'l' as u8, 'i' as u8, 't' as u8, 'z' as u8, ' ' as u8, 'g' as u8, 'a' as u8, 'm' as u8, 'e' as u8]
}

/// The bytes `Rated Blitz game` as a vector.
pub fn bytes_rated_blitz() -> (r: Vec<u8>)
    ensures
        r@ == lit_rated_blitz(),
{
    let v: Vec<u8> = vec!['R' as u8, 'a' as u8, 't' as u8, 'e' as u8, 'd' as u8, ' ' as u8, 'B' as u8, 'l' as u8, 'i' as u8, 't' as u8, 'z' as u8, ' ' as u8, 'g' as u8, 'a' as u8, 'm' as u8, 'e' as u8];
    proof {
        assert(v@ =~= lit_rated_blitz());
    }
    v
}

/// The bytes `Normal`: a normal termination.
pub open spec fn lit_normal() -> Seq<u8> {
    seq!['N' as u8, 'o' as u8, 'r' as u8, 'm' as u8, 'a' as u8, 'l' as u8]
}

/// The bytes `Normal` as a vector.
pub fn bytes_normal() -> (r: Vec<u8>)
    ensures
        r@ == lit_normal(),
{
    let v: Vec<u8> = vec!['N' as u8, 'o' as u8, 'r' as u8, 'm' as u8, 'a' as u8, 'l' as u8];
    proof {
        assert(v@ =~= lit_normal());
    }
    v
}

/// The bytes `Time forfeit`: a termination on time.
pub open spec fn lit_time_forfeit() -> Seq<u8> {
    seq!['T' as u8, 'i' as u8, 'm' as u8, 'e' as u8, ' ' as u8, 'f' as u8, 'o' as u8, 'r' as u8, 'f' as u8, 'e' as u8, 'i' as u8, 't' as u8]
}

/// The bytes `Time forfeit` as a vector.
pub fn bytes_time_forfeit() -> (r: Vec<u8>)
    ensures
        r@ == lit_time_forfeit(),
{
    let v: Vec<u8> = vec!['T' as u8, 'i' as u8, 'm' as u8, 'e' as u8, ' ' as u8, 'f' as u8, 'o' as u8, 'r' as u8, 'f' as u8, 'e' as u8, 'i' as u8, 't' as u8];
    proof {
        assert(v@ =~= lit_time_forfeit());
    }
    v
}

/// The bytes `Abandoned`: an abandoned game.
pub open spec fn lit_abandoned() -> Seq<u8> {
    seq!['A' as u8, 'b' as u8, 'a' as u8, 'n' as u8, 'd' as u8, 'o' as u8, 'n' as u8, 'e' as u8, 'd' as u8]
}

/// The bytes `Abandoned` as a vector.
pub fn bytes_abandoned() -> (r: Vec<u8>)
    ensures
        r@ == lit_abandoned(),
{
    let v: Vec<u8> = vec!['A' as u8, 'b' as u8, 'a' as u8, 'n' as u8, 'd' as u8, 'o' as u8, 'n' as u8, 'e' as u8, 'd' as u8];
    proof {
        assert(v@ =~= lit_abandoned());
    }
    v
}

/// The bytes `Rules infraction`: a termination by rules infraction.
pub open spec fn lit_rules_infraction() -> Seq<u8> {
    seq!['R' as u8, 'u' as u8, 'l' as u8, 'e' as u8, 's' as u8, ' ' as u8, 'i' as u8, 'n' as u8, 'f' as u8, 'r' as u8, 'a' as u8, 'c' as u8, 't' as u8, 'i' as u8, 'o' as u8, 'n' as u8]
}

/// The bytes `Rules infraction` as a vector.
pub fn bytes_rules_infraction() -> (r: Vec<u8>)
    ensures
        r@ == lit_rules_infraction(),
{
    let v: Vec<u8> = vec!['R' as u8, 'u' as u8, 'l' as u8, 'e' as u8, 's' as u8, ' ' as u8, 'i' as u8, 'n' as u8, 'f' as u8, 'r' as u8, 'a' as u8, 'c' as u8, 't' as u8, 'i' as u8, 'o' as u8, 'n' as u8];
    proof {
        assert(v@ =~= lit_rules_infraction());
    }
    v
}

/// The bytes `Unterminated`: an unterminated game.
pub open spec fn lit_unterminated() -> Seq<u8> {
    seq!['U' as u8, 'n' as u8, 't' as u8, 'e' as u8, 'r' as u8, 'm' as u8, 'i' as u8, 'n' as u8, 'a' as u8, 't' as u8, 'e' as u8, 'd' as u8]
}

/// The bytes `Unterminated` as a vector.
pub fn bytes_unterminated() -> (r: Vec<u8>)
    ensures
        r@ == lit_unterminated(),
{
    let v: Vec<u8> = vec!['U' as u8, 'n' as u8, 't' as u8, 'e' as u8, 'r' as u8, 'm' as u8, 'i' as u8, 'n' as u8, 'a' as u8, 't' as u8, 'e' as u8, 'd' as u8];
    proof {
        assert(v@ =~= lit_unterminated());
    }
    v
}

/// The bytes `Unknown`: an unknown termination.
pub open spec fn lit_unknown() -> Seq<u8> {
    seq!['U' as u8, 'n' as u8, 'k' as u8, 'n' as u8, 'o' as u8, 'w' as u8, 'n' as u8]
}

/// The bytes `Unknown` as a vector.
pub fn bytes_unknown() -> (r: Vec<u8>)
    ensures
        r@ == lit_unknown(),
{
    let v: Vec<u8> = vec!['U' as u8, 'n' as u8, 'k' as u8, 'n' as u8, 'o' as u8, 'w' as u8, 'n' as u8];
    proof {
        assert(v@ =~= lit_unknown());
    }
    v
}

/// The bytes `1-0`: a white win.
pub open spec fn lit_white_win() -> Seq<u8> {
    seq!['1' as u8, '-' as u8, '0' as u8]
}

/// The bytes `1-0` as a vector.
pub fn bytes_white_win() -> (r: Vec<u8>)
    ensures
        r@ == lit_white_win(),
{
    let v: Vec<u8> = vec!['1' as u8, '-' as u8, '0' as u8];
    proof {
        assert(v@ =~= lit_white_win());
    }
    v
}

/// The bytes `1/2-1/2`: a draw.
pub open spec fn lit_draw() -> Seq<u8> {
    seq!['1' as u8, '/' as u8, '2' as u8, '-' as u8, '1' as u8, '/' as u8, '2' as u8]
}

/// The bytes `1/2-1/2` as a vector.
pub fn bytes_draw() -> (r: Vec<u8>)
    ensures
        r@ == lit_draw(),
{
    let v: Vec<u8> = vec!['1' as u8, '/' as u8, '2' as u8, '-' as u8, '1' as u8, '/' as u8, '2' as u8];
    proof {
        assert(v@ =~= lit_draw());
    }
    v
}

/// The bytes `0-1`: a black win.
pub open spec fn lit_black_win() -> Seq<u8> {
    seq!['0' as u8, '-' as u8, '1' as u8]
}

/// The bytes `0-1` as a vector.
pub fn bytes_black_win() -> (r: Vec<u8>)
    ensures
        r@ == lit_black_win(),
{
    let v: Vec<u8> = vec!['0' as u8, '-' as u8, '1' as u8];
    proof {
        assert(v@ =~= lit_black_win());
    }
    v
}

/// The bytes `*`: an unfinished or unknown result.
pub open spec fn lit_star() -> Seq<u8> {
    seq!['*' as u8]
}

/// The bytes `*` as a vector.
pub fn bytes_star() -> (r: Vec<u8>)
    ensures
        r@ == lit_star(),
{
    let v: Vec<u8> = vec!['*' as u8];
    proof {
        assert(v@ =~= lit_star());
    }
    v
}

/// A player rating: an unsigned decimal header value.
#[derive(Clone, Copy, PartialEq, Eq, Structural, Debug)]
pub struct Rating(pub u16);

/// What reading a rating out of a header value yields.
pub open spec fn rating_of(s: Seq<u8>) -> Option<Rating> {
    match u16_of(s) {
        Some(n) => Some(Rating(n)),
        None => None,
    }
}

impl Rating {
    /// Reads a rating out of a header value.
    pub fn try_from(value: &[u8]) -> (r: Option<Rating>)
        ensures
            r == rating_of(value@),
    {
        match parse_u16(value) {
            Some(n) => Some(Rating(n)),
            None => None,
        }
    }
}

/// A round's change to a player rating: a signed decimal header value.
#[derive(Clone, Copy, PartialEq, Eq, Structural, Debug)]
pub struct RatingDiff(pub i16);

/// What reading a rating change out of a header value yields.
pub open spec fn rating_diff_of(s: Seq<u8>) -> Option<RatingDiff> {
    match i16_of(s) {
        Some(n) => Some(RatingDiff(n)),
        None => None,
    }
}

impl RatingDiff {
    /// Reads a rating change out of a header value.
    pub fn try_from(value: &[u8]) -> (r: Option<RatingDiff>)
        ensures
            r == rating_diff_of(value@),
    {
        match parse_i16(value) {
            Some(n) => Some(RatingDiff(n)),
            None => None,
        }
    }
}

/// A time control header of the two-field form `initial+increment`, both in
/// seconds.  This is the only time control form understood; any other form
/// rejects the game.
#[derive(Clone, Copy, PartialEq, Eq, Structural, Debug)]
pub struct TimeControl {
    pub initial_time: u32,
    pub increment: u32,
}

/// What reading a time control out of a header value yields: the decimal
/// fields on either side of the first `+`.
pub open spec fn time_control_of(s: Seq<u8>) -> Option<TimeControl> {
    match split_once_spec(s, seq!['+' as u8]) {
        Some(p) => if u32_of(p.0) is Some && u32_of(p.1) is Some {
            Some(
                TimeControl {
                    initial_time: u32_of(p.0)->Some_0,
                    increment: u32_of(p.1)->Some_0,
                },
            )
        } else {
            None
        },
        None => None,
    }
}

impl TimeControl {
    /// Reads a time control out of a header value.
    pub fn try_from(value: &[u8]) -> (r: Option<TimeControl>)
        ensures
            r == time_control_of(value@),
    {
        let plus: [u8; 1] = ['+' as u8];
        proof {
            assert(plus@ =~= seq!['+' as u8]);
        }
        match split_once(value, plus.as_slice()) {
            Some((initial, inc)) => {
                let initial_time = match parse_u32(initial.as_slice()) {
                    Some(n) => n,
                    None => {
                        return None;
                    },
                };
                let increment = match parse_u32(inc.as_slice()) {
                    Some(n) => n,
                    None => {
                        return None;
                    },
                };
                Some(TimeControl { initial_time, increment })
            },
            None => None,
        }
    }
}

/// The stated reason a game ended, as lichess writes it.
#[derive(Clone, Copy, PartialEq, Eq, Structural, Debug)]
pub enum Termination {
    Normal,
    TimeForfeit,
    Abandoned,
    RulesInfraction,
    Unterminated,
    Unknown,
}

/// What reading a termination out of a header value yields.
pub open spec fn termination_of(s: Seq<u8>) -> Option<Termination> {
    if s == lit_normal() {
        Some(Termination::Normal)
    } else if s == lit_time_forfeit() {
        Some(Termination::TimeForfeit)
    } else if s == lit_abandoned() {
        Some(Termination::Abandoned)
    } else if s == lit_rules_infraction() {
        Some(Termination::RulesInfraction)
    } else if s == lit_unterminated() {
        Some(Termination::Unterminated)
    } else if s == lit_unknown() {
        Some(Termination::Unknown)
    } else {
        None
    }
}

impl Termination {
    /// Reads a termination out of a header value.
    pub fn try_from(value: &[u8]) -> (r: Option<Termination>)
        ensures
            r == termination_of(value@),
    {
        if bytes_eq(value, bytes_normal().as_slice()) {
            Some(Termination::Normal)
        } else if bytes_eq(value, bytes_time_forfeit().as_slice()) {
            Some(Termination::TimeForfeit)
        } else if bytes_eq(value, bytes_abandoned().as_slice()) {
            Some(Termination::Abandoned)
        } else if bytes_eq(value, bytes_rules_infraction().as_slice()) {
            Some(Termination::RulesInfraction)
        } else if bytes_eq(value, bytes_unterminated().as_slice()) {
            Some(Termination::Unterminated)
        } else if bytes_eq(value, bytes_unknown().as_slice()) {
            Some(Termination::Unknown)
        } else {
            None
        }
    }
}

/// A game's stated result.
#[derive(Clone, Copy, PartialEq, Eq, Structural, Debug)]
pub enum PgnResult {
    WhiteWin,
    Draw,
    BlackWin,
    Other,
}

/// What reading a result out of a header value yields; `*` marks an
/// unfinished or unknown result.
pub open spec fn pgn_result_of(s: Seq<u8>) -> Option<PgnResult> {
    if s == lit_white_win() {
        Some(PgnResult::WhiteWin)
    } else if s == lit_draw() {
        Some(PgnResult::Draw)
    } else if s == lit_black_win() {
        Some(PgnResult::BlackWin)
    } else if s == lit_star() {
        Some(PgnResult::Other)
    } else {
        None
    }
}

impl PgnResult {
    /// Reads a result out of a header value.
    pub fn try_from(value: &[u8]) -> (r: Option<PgnResult>)
        ensures
            r == pgn_result_of(value@),
    {
        if bytes_eq(value, bytes_white_win().as_slice()) {
            Some(PgnResult::WhiteWin)
        } else if bytes_eq(value, bytes_draw().as_slice()) {
            Some(PgnResult::Draw)
        } else if bytes_eq(value, bytes_black_win().as_slice()) {
            Some(PgnResult::BlackWin)
        } else if bytes_eq(value, bytes_star().as_slice()) {
            Some(PgnResult::Other)
        } else {
            None
        }
    }
}

/// An accepted rating, written back in decimal as a row does it, reparses
/// to exactly the original value.
pub proof fn lemma_rating_round_trip(s: Seq<u8>)
    requires
        rating_of(s) is Some,
    ensures
        u16_of(decimal_of(rating_of(s)->Some_0.0 as nat)) == Some(rating_of(s)->Some_0.0),
{
    crate::bytes::lemma_u16_round_trip(rating_of(s)->Some_0.0);
}

/// An accepted rating change, written back in decimal as a row does it,
/// reparses to exactly the original value.
pub proof fn lemma_rating_diff_round_trip(s: Seq<u8>)
    requires
        rating_diff_of(s) is Some,
    ensures
        i16_of(signed_decimal_of(rating_diff_of(s)->Some_0.0 as int)) == Some(
            rating_diff_of(s)->Some_0.0,
        ),
{
    crate::bytes::lemma_i16_round_trip(rating_diff_of(s)->Some_0.0);
}

/// An accepted time control field, written back in decimal as a row does
/// it, reparses to exactly the original value.
pub proof fn lemma_time_control_round_trip(s: Seq<u8>)
    requires
        time_control_of(s) is Some,
    ensures
        u32_of(decimal_of(time_control_of(s)->Some_0.initial_time as nat)) == Some(
            time_control_of(s)->Some_0.initial_time,
        ),
        u32_of(decimal_of(time_control_of(s)->Some_0.increment as nat)) == Some(
            time_control_of(s)->Some_0.increment,
        ),
{
    crate::bytes::lemma_u32_round_trip(time_control_of(s)->Some_0.initial_time);
    crate::bytes::lemma_u32_round_trip(time_control_of(s)->Some_0.increment);
}

} // verus!

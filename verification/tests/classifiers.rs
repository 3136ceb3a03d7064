use pgn2csv::berserk;
use pgn2csv::blitz;
use pgn2csv::time_odds;

fn feed_berserk(headers: &[(&[u8], &[u8])], comments: &[&[u8]]) -> berserk::Processor {
    let mut p = berserk::Processor::new();
    p.begin_game();
    for (key, value) in headers {
        p.header(key, value);
    }
    p.end_headers();
    for c in comments {
        p.comment(c);
    }
    p.end_game();
    p
}

fn feed_time_odds(headers: &[(&[u8], &[u8])], comments: &[&[u8]]) -> time_odds::Processor {
    let mut p = time_odds::Processor::new();
    p.begin_game();
    for (key, value) in headers {
        p.header(key, value);
    }
    p.end_headers();
    for c in comments {
        p.comment(c);
    }
    p.end_game();
    p
}

fn feed_blitz(headers: &[(&[u8], &[u8])], comments: &[&[u8]]) -> blitz::Processor {
    let mut p = blitz::Processor::new();
    p.begin_game();
    for (key, value) in headers {
        p.header(key, value);
    }
    p.end_headers();
    for c in comments {
        p.comment(c);
    }
    p.end_game();
    p
}

#[test]
fn berserk_double_berserk_game() {
    let mut p = feed_berserk(
        &[
            (b"Event", b"Rated Bullet tournament https://lichess.org/tournament/x"),
            (b"WhiteElo", b"1500"),
            (b"BlackElo", b"1400"),
            (b"TimeControl", b"60+0"),
            (b"Termination", b"Normal"),
            (b"Result", b"1-0"),
        ],
        &[b"[%clk 0:00:29]", b"[%clk 0:00:28]"],
    );
    assert!(!p.skip());
    let row = p.row();
    assert_eq!(row.white_rating.0, 1500);
    assert_eq!(row.black_rating.0, 1400);
    assert_eq!(row.time, 1);
    assert_eq!(row.berserk, 3);
    assert_eq!(row.result, 2);
    assert_eq!(row.termination, 0);
}

#[test]
fn berserk_codes_by_side() {
    // Only white berserked: white below a minute, black at the full minute.
    let p = feed_berserk(
        &[
            (b"Event", b"Rated Bullet tournament"),
            (b"TimeControl", b"60+0"),
            (b"Termination", b"Normal"),
            (b"Result", b"0-1"),
        ],
        &[b"[%clk 0:00:30]", b"[%clk 0:01:00]"],
    );
    assert!(!p.skip());
    assert_eq!(p.row.berserk, 1);
    assert_eq!(p.row.result, 0);

    // Only black berserked.
    let p = feed_berserk(
        &[
            (b"Event", b"Rated Bullet tournament"),
            (b"TimeControl", b"180+0"),
            (b"Termination", b"Time forfeit"),
            (b"Result", b"1/2-1/2"),
        ],
        &[b"[%clk 0:03:00]", b"[%clk 0:01:30]"],
    );
    assert!(!p.skip());
    assert_eq!(p.row.time, 3);
    assert_eq!(p.row.berserk, 2);
    assert_eq!(p.row.result, 1);
    assert_eq!(p.row.termination, 1);

    // Neither berserked.
    let p = feed_berserk(
        &[
            (b"Event", b"Rated Bullet tournament"),
            (b"TimeControl", b"60+0"),
            (b"Termination", b"Normal"),
            (b"Result", b"1-0"),
        ],
        &[b"[%clk 0:01:00]", b"[%clk 0:01:00]"],
    );
    assert!(!p.skip());
    assert_eq!(p.row.berserk, 0);
}

#[test]
fn berserk_rejects_increment_games() {
    let p = feed_berserk(
        &[
            (b"Event", b"Rated Bullet tournament"),
            (b"TimeControl", b"60+1"),
            (b"Termination", b"Normal"),
            (b"Result", b"1-0"),
        ],
        &[b"[%clk 0:00:29]", b"[%clk 0:00:28]"],
    );
    assert!(p.skip());
}

#[test]
fn berserk_rejects_other_initial_times() {
    let p = feed_berserk(
        &[(b"Event", b"Rated Blitz tournament"), (b"TimeControl", b"300+0")],
        &[b"[%clk 0:02:30]", b"[%clk 0:05:00]"],
    );
    assert!(p.skip());
}

#[test]
fn berserk_rejects_games_outside_tournaments() {
    let p = feed_berserk(
        &[(b"Event", b"Rated Blitz game"), (b"TimeControl", b"60+0")],
        &[b"[%clk 0:00:29]", b"[%clk 0:00:28]"],
    );
    assert!(p.skip());
}

#[test]
fn berserk_rejects_games_with_one_sample() {
    let p = feed_berserk(
        &[
            (b"Event", b"Rated Bullet tournament"),
            (b"TimeControl", b"60+0"),
            (b"Termination", b"Normal"),
            (b"Result", b"1-0"),
        ],
        &[b"[%clk 0:00:29]"],
    );
    assert!(p.skip());
}

#[test]
fn berserk_rejects_unreadable_values() {
    let p = feed_berserk(
        &[(b"Event", b"Rated Bullet tournament"), (b"WhiteElo", b"unknown")],
        &[],
    );
    assert!(p.skip());

    let p = feed_berserk(
        &[(b"Event", b"Rated Bullet tournament"), (b"Termination", b"Abandoned")],
        &[],
    );
    assert!(p.skip());

    let p = feed_berserk(
        &[(b"Event", b"Rated Bullet tournament"), (b"Result", b"*")],
        &[],
    );
    assert!(p.skip());

    let p = feed_berserk(
        &[
            (b"Event", b"Rated Bullet tournament"),
            (b"TimeControl", b"60+0"),
        ],
        &[b"no clock here", b"[%clk 0:00:28]"],
    );
    assert!(p.skip());
}

#[test]
fn time_odds_accepts_a_berserked_game() {
    let mut p = feed_time_odds(
        &[
            (b"Event", b"Rated Bullet tournament"),
            (b"WhiteElo", b"1500"),
            (b"BlackElo", b"1400"),
            (b"TimeControl", b"60+0"),
            (b"Termination", b"Normal"),
            (b"Result", b"1-0"),
        ],
        &[b"[%clk 0:00:30]", b"[%clk 0:01:00]", b"[%clk 0:00:25]", b"[%clk 0:00:55]"],
    );
    assert!(!p.skip());
    let row = p.row();
    assert_eq!(row.white_initial_time, 30);
    assert_eq!(row.black_initial_time, 60);
    assert_eq!(row.initial_time, 60);
    assert_eq!(row.increment, 0);
    assert_eq!(row.white_rating.0, 1500);
    assert_eq!(row.black_rating.0, 1400);
    assert_eq!(row.result, 2);
    assert_eq!(row.termination, 0);
    assert!(row.tournament);
}

#[test]
fn time_odds_marks_non_tournament_games() {
    let p = feed_time_odds(
        &[
            (b"Event", b"Rated Bullet game"),
            (b"TimeControl", b"60+0"),
            (b"Termination", b"Normal"),
            (b"Result", b"1-0"),
        ],
        &[b"[%clk 0:00:30]", b"[%clk 0:01:00]"],
    );
    assert!(!p.skip());
    assert!(!p.row.tournament);
}

#[test]
fn time_odds_rejects_symmetric_samples() {
    let p = feed_time_odds(
        &[(b"Event", b"Casual game"), (b"TimeControl", b"300+0")],
        &[b"[%clk 0:00:30]", b"[%clk 0:00:30]"],
    );
    assert!(p.skip());
}

#[test]
fn time_odds_rejects_midgame_time_grants() {
    let p = feed_time_odds(
        &[
            (b"Event", b"Rated Bullet tournament"),
            (b"TimeControl", b"60+0"),
            (b"Termination", b"Normal"),
            (b"Result", b"1-0"),
        ],
        &[b"[%clk 0:01:00]", b"[%clk 0:00:30]", b"[%clk 0:01:30]"],
    );
    assert!(p.skip());
}

#[test]
fn time_odds_allows_increment_accrual() {
    let p = feed_time_odds(
        &[
            (b"Event", b"Rated Bullet tournament"),
            (b"TimeControl", b"60+2"),
            (b"Termination", b"Normal"),
            (b"Result", b"1-0"),
        ],
        &[b"[%clk 0:00:30]", b"[%clk 0:01:00]", b"[%clk 0:00:32]", b"[%clk 0:01:02]"],
    );
    assert!(!p.skip());
}

#[test]
fn time_odds_one_sided_odds_still_qualify() {
    // White matches the stated control; only black started short.
    let mut p = feed_time_odds(
        &[(b"Event", b"Casual game"), (b"TimeControl", b"300+0")],
        &[b"[%clk 0:05:00]", b"[%clk 0:04:00]", b"[%clk 0:04:59]"],
    );
    assert!(!p.skip());
    let row = p.row();
    assert_eq!(row.white_initial_time, 300);
    assert_eq!(row.black_initial_time, 240);
}

#[test]
fn time_odds_rejects_games_with_one_sample() {
    let p = feed_time_odds(
        &[(b"Event", b"Casual game"), (b"TimeControl", b"60+0")],
        &[b"[%clk 0:00:30]"],
    );
    assert!(p.skip());
}

#[test]
fn blitz_projects_headers_to_a_row() {
    let mut p = feed_blitz(
        &[
            (b"Event", b"Rated Blitz game"),
            (b"White", b"A"),
            (b"Black", b"B"),
            (b"Result", b"1-0"),
            (b"UTCDate", b"2020.01.01"),
            (b"UTCTime", b"00:00:00"),
            (b"WhiteElo", b"1500"),
            (b"BlackElo", b"1400"),
            (b"WhiteRatingDiff", b"8"),
            (b"BlackRatingDiff", b"-8"),
        ],
        &[],
    );
    assert!(!p.skip());
    let row = p.row();
    assert_eq!(row.white.as_slice(), b"A");
    assert_eq!(row.black.as_slice(), b"B");
    assert_eq!(row.result, 1);
    assert_eq!(row.utc_date.as_slice(), b"2020.01.01");
    assert_eq!(row.utc_time.as_slice(), b"00:00:00");
    assert_eq!(row.white_elo.0, 1500);
    assert_eq!(row.black_elo.0, 1400);
    assert_eq!(row.white_rating_diff.0, 8);
    assert_eq!(row.black_rating_diff.0, -8);
}

#[test]
fn blitz_ignores_move_content() {
    let headers: &[(&[u8], &[u8])] = &[
        (b"Event", b"Rated Blitz game"),
        (b"White", b"A"),
        (b"Black", b"B"),
        (b"Result", b"0-1"),
        (b"WhiteElo", b"1800"),
        (b"BlackElo", b"1850"),
    ];
    let mut quiet = feed_blitz(headers, &[]);
    let mut noisy = feed_blitz(headers, &[b"[%clk 0:03:00]", b"nonsense", b"[%eval 0.3]"]);
    assert_eq!(quiet.skip(), noisy.skip());
    let a = quiet.row();
    let b = noisy.row();
    assert_eq!(a.white, b.white);
    assert_eq!(a.black, b.black);
    assert_eq!(a.result, b.result);
    assert_eq!(a.result, -1);
    assert_eq!(a.white_elo, b.white_elo);
    assert_eq!(a.black_elo, b.black_elo);
}

#[test]
fn blitz_rejects_other_events_and_results() {
    let p = feed_blitz(&[(b"Event", b"Rated Bullet game")], &[]);
    assert!(p.skip());

    let p = feed_blitz(&[(b"Event", b"Rated Blitz game"), (b"Result", b"*")], &[]);
    assert!(p.skip());

    let p = feed_blitz(&[(b"Event", b"Rated Blitz game"), (b"WhiteRatingDiff", b"x")], &[]);
    assert!(p.skip());
}

#[test]
fn classifiers_reset_between_games() {
    let mut p = berserk::Processor::new();
    p.begin_game();
    p.header(b"Event", b"Casual game");
    assert!(p.skip());
    p.end_game();
    p.begin_game();
    assert!(!p.skip());
}

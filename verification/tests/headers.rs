use pgn2csv::headers::{PgnResult, Rating, RatingDiff, Termination, TimeControl};

#[test]
fn rating_parses_unsigned_decimals() {
    assert_eq!(Rating::try_from(b"1500".as_slice()), Some(Rating(1500)));
    assert_eq!(Rating::try_from(b"+7".as_slice()), Some(Rating(7)));
    assert_eq!(Rating::try_from(b"0".as_slice()), Some(Rating(0)));
}

#[test]
fn rating_rejects_bad_values() {
    assert_eq!(Rating::try_from(b"65536".as_slice()), None);
    assert_eq!(Rating::try_from(b"12a".as_slice()), None);
    assert_eq!(Rating::try_from(b"".as_slice()), None);
    assert_eq!(Rating::try_from(b"-5".as_slice()), None);
}

#[test]
fn rating_diff_parses_signed_decimals() {
    assert_eq!(RatingDiff::try_from(b"-8".as_slice()), Some(RatingDiff(-8)));
    assert_eq!(RatingDiff::try_from(b"8".as_slice()), Some(RatingDiff(8)));
    assert_eq!(RatingDiff::try_from(b"+8".as_slice()), Some(RatingDiff(8)));
}

#[test]
fn rating_diff_rejects_bad_values() {
    assert_eq!(RatingDiff::try_from(b"abc".as_slice()), None);
    assert_eq!(RatingDiff::try_from(b"".as_slice()), None);
    assert_eq!(RatingDiff::try_from(b"40000".as_slice()), None);
}

#[test]
fn time_control_parses_two_fields() {
    assert_eq!(
        TimeControl::try_from(b"300+0".as_slice()),
        Some(TimeControl { initial_time: 300, increment: 0 })
    );
    assert_eq!(
        TimeControl::try_from(b"60+1".as_slice()),
        Some(TimeControl { initial_time: 60, increment: 1 })
    );
}

#[test]
fn time_control_rejects_other_forms() {
    assert_eq!(TimeControl::try_from(b"300".as_slice()), None);
    assert_eq!(TimeControl::try_from(b"a+b".as_slice()), None);
    assert_eq!(TimeControl::try_from(b"-".as_slice()), None);
    assert_eq!(TimeControl::try_from(b"".as_slice()), None);
}

#[test]
fn termination_recognizes_every_stated_reason() {
    assert_eq!(Termination::try_from(b"Normal".as_slice()), Some(Termination::Normal));
    assert_eq!(
        Termination::try_from(b"Time forfeit".as_slice()),
        Some(Termination::TimeForfeit)
    );
    assert_eq!(Termination::try_from(b"Abandoned".as_slice()), Some(Termination::Abandoned));
    assert_eq!(
        Termination::try_from(b"Rules infraction".as_slice()),
        Some(Termination::RulesInfraction)
    );
    assert_eq!(
        Termination::try_from(b"Unterminated".as_slice()),
        Some(Termination::Unterminated)
    );
    assert_eq!(Termination::try_from(b"Unknown".as_slice()), Some(Termination::Unknown));
    assert_eq!(Termination::try_from(b"Adjourned".as_slice()), None);
}

#[test]
fn pgn_result_recognizes_every_form() {
    assert_eq!(PgnResult::try_from(b"1-0".as_slice()), Some(PgnResult::WhiteWin));
    assert_eq!(PgnResult::try_from(b"1/2-1/2".as_slice()), Some(PgnResult::Draw));
    assert_eq!(PgnResult::try_from(b"0-1".as_slice()), Some(PgnResult::BlackWin));
    assert_eq!(PgnResult::try_from(b"*".as_slice()), Some(PgnResult::Other));
    assert_eq!(PgnResult::try_from(b"2-0".as_slice()), None);
}

#[test]
fn numeric_round_trip() {
    assert_eq!(pgn2csv::bytes::format_u32(1500), b"1500".to_vec());
    assert_eq!(Rating::try_from(b"1500".as_slice()), Some(Rating(1500)));
    assert_eq!(
        Rating::try_from(pgn2csv::bytes::format_u32(1500).as_slice()),
        Some(Rating(1500))
    );
    assert_eq!(pgn2csv::bytes::format_u32(0), b"0".to_vec());
    assert_eq!(pgn2csv::bytes::format_i16(-8), b"-8".to_vec());
    assert_eq!(
        RatingDiff::try_from(pgn2csv::bytes::format_i16(-8).as_slice()),
        Some(RatingDiff(-8))
    );
    assert_eq!(pgn2csv::bytes::format_i16(8), b"8".to_vec());
    assert_eq!(
        RatingDiff::try_from(pgn2csv::bytes::format_i16(8).as_slice()),
        Some(RatingDiff(8))
    );

    let mut control = pgn2csv::bytes::format_u32(4294967295);
    control.push(b'+');
    control.append(&mut pgn2csv::bytes::format_u32(0));
    assert_eq!(
        TimeControl::try_from(control.as_slice()),
        Some(TimeControl { initial_time: 4294967295, increment: 0 })
    );
}

#[test]
fn substring_search_through_contains() {
    assert!(pgn2csv::bytes::contains(b"Rated tournament https://x", b"tournament"));
    assert!(!pgn2csv::bytes::contains(b"Rated Blitz game", b"tournament"));
    assert!(pgn2csv::bytes::contains(b"abc", b""));
    assert!(!pgn2csv::bytes::contains(b"ab", b"abc"));
}

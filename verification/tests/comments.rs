use pgn2csv::comments::{Clock, RawCommand, RawCommandIterator};

#[test]
fn raw_command() {
    let mut command = RawCommand::try_from(b"eval 0.17".as_slice()).unwrap();
    assert_eq!(command.name.as_slice(), b"eval");
    assert_eq!(command.params.next(), Some(b"0.17".to_vec()));
    assert_eq!(command.params.next(), None);

    command = RawCommand::try_from(b"list -0.1,2:34/5, 6, ".as_slice()).unwrap();
    assert_eq!(command.name.as_slice(), b"list");
    assert_eq!(command.params.next(), Some(b"-0.1".to_vec()));
    assert_eq!(command.params.next(), Some(b"2:34/5".to_vec()));
    assert_eq!(command.params.next(), Some(b" 6".to_vec()));
    assert_eq!(command.params.next(), Some(b" ".to_vec()));
}

#[test]
fn raw_command_iter() {
    let comment = b" [%eval 0.17] [%clk 0:00:30] ";
    let mut iter = RawCommandIterator { comment: comment.to_vec() };
    let mut command = iter.next().unwrap();
    assert_eq!(command.name.as_slice(), b"eval");
    assert_eq!(command.params.next(), Some(b"0.17".to_vec()));
    assert_eq!(command.params.next(), None);

    command = iter.next().unwrap();
    assert_eq!(command.name.as_slice(), b"clk");
    assert_eq!(command.params.next(), Some(b"0:00:30".to_vec()));
    assert_eq!(command.params.next(), None);

    assert!(iter.next().is_none());
}

#[test]
fn raw_command_without_space_is_rejected() {
    assert!(RawCommand::try_from(b"eval".as_slice()).is_none());
}

#[test]
fn clock_from_bytes() {
    let clock = Clock::try_from(b"0:00:30".as_slice()).unwrap();
    assert_eq!((clock.hours, clock.minutes, clock.seconds), (0, 0, 30));
    assert_eq!(clock.total_seconds(), 30);

    let clock = Clock::try_from(b"1:02:03".as_slice()).unwrap();
    assert_eq!(clock.total_seconds(), 3723);
}

#[test]
fn clock_from_bytes_rejects_bad_forms() {
    assert!(Clock::try_from(b"1:2".as_slice()).is_none());
    assert!(Clock::try_from(b"0:0:0:0".as_slice()).is_none());
    assert!(Clock::try_from(b"a:b:c".as_slice()).is_none());
    assert!(Clock::try_from(b"".as_slice()).is_none());
}

#[test]
fn clock_from_comment() {
    let clock = Clock::try_from_comment(b"nice move [%clk 0:01:40]").unwrap();
    assert_eq!(clock.total_seconds(), 100);

    let clock = Clock::try_from_comment(b" [%eval 0.17] [%clk 0:00:30] ").unwrap();
    assert_eq!(clock.total_seconds(), 30);
}

#[test]
fn clock_from_comment_without_clk() {
    assert!(Clock::try_from_comment(b"just words").is_none());
    assert!(Clock::try_from_comment(b" [%eval 0.17] ").is_none());
}

#[test]
fn clock_search_stops_at_malformed_command() {
    assert!(Clock::try_from_comment(b" [%bad] [%clk 0:00:30] ").is_none());
}

use pgn2csv::files::{Compression, Pgn};

#[test]
fn compression_from_extension() {
    assert_eq!(Pgn::new(b"/data/games.pgn.bz2".to_vec()).compression(), Compression::Bzip2);
    assert_eq!(Pgn::new(b"/data/games.pgn.zst".to_vec()).compression(), Compression::Zstd);
    assert_eq!(Pgn::new(b"/data/games.pgn".to_vec()).compression(), Compression::Plain);
    assert_eq!(Pgn::new(b"games".to_vec()).compression(), Compression::Plain);
}

#[test]
fn compression_reads_the_file_name_alone() {
    assert_eq!(Pgn::new(b"/archive.bz2/games".to_vec()).compression(), Compression::Plain);
}

#[test]
fn csv_path_replaces_the_last_extension() {
    let pgn = Pgn::new(b"/data/games.pgn".to_vec());
    assert_eq!(pgn.csv_path(b"/out").as_slice(), b"/out/games.csv");

    let pgn = Pgn::new(b"/data/games.pgn.bz2".to_vec());
    assert_eq!(pgn.csv_path(b"/out").as_slice(), b"/out/games.pgn.csv");

    let pgn = Pgn::new(b"games".to_vec());
    assert_eq!(pgn.csv_path(b"/out").as_slice(), b"/out/games.csv");
}

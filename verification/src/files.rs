//! Input files: the compression a file's name calls for, and the name of
//! the row file written beside it.
//!
//! The rules here are the library's own simple reading of a path: the file
//! name is everything after the last `/`, and the extension is everything
//! after the last `.` of the file name.

use vstd::prelude::*;

use crate::bytes::{bytes_eq, lemma_rfind_spec_bound, rfind_byte, rfind_spec, sub_vec};

verus! {

/// The container a file's extension calls for; `Plain` reads the bytes as
/// they are.
#[derive(Clone, Copy, PartialEq, Eq, Structural, Debug)]
pub enum Compression {
    Plain,
    Bzip2,
    Zstd,
}

/// The bytes `bz2`.
pub open spec fn lit_bz2() -> Seq<u8> {
    seq!['b' as u8, 'z' as u8, '2' as u8]
}

/// The bytes `zst`.
pub open spec fn lit_zst() -> Seq<u8> {
    seq!['z' as u8, 's' as u8, 't' as u8]
}

/// The bytes `.csv`.
pub open spec fn lit_dot_csv() -> Seq<u8> {
    seq!['.' as u8, 'c' as u8, 's' as u8, 'v' as u8]
}

/// The file name of a path: everything after the last `/`, or the whole
/// path when it has none.
pub open spec fn file_name_spec(p: Seq<u8>) -> Seq<u8> {
    match rfind_spec(p, '/' as u8) {
        Some(i) => p.subrange(i + 1, p.len() as int),
        None => p,
    }
}

/// A file name without its extension: everything before the last `.`, or
/// the whole name when it has none.
pub open spec fn stem_spec(name: Seq<u8>) -> Seq<u8> {
    match rfind_spec(name, '.' as u8) {
        Some(i) => name.subrange(0, i),
        None => name,
    }
}

/// A file name's extension: everything after the last `.`, if it has one.
pub open spec fn extension_spec(name: Seq<u8>) -> Option<Seq<u8>> {
    match rfind_spec(name, '.' as u8) {
        Some(i) => Some(name.subrange(i + 1, name.len() as int)),
        None => None,
    }
}

/// Where the rows of a file go: the file's name with its extension
/// replaced by `csv`, inside the given directory.
pub open spec fn csv_path_spec(csv_dir: Seq<u8>, path: Seq<u8>) -> Seq<u8> {
    csv_dir + seq!['/' as u8] + stem_spec(file_name_spec(path)) + lit_dot_csv()
}

/// The compression a path's extension calls for.
pub open spec fn compression_spec(path: Seq<u8>) -> Compression {
    match extension_spec(file_name_spec(path)) {
        Some(ext) => if ext == lit_bz2() {
            Compression::Bzip2
        } else if ext == lit_zst() {
            Compression::Zstd
        } else {
            Compression::Plain
        },
        None => Compression::Plain,
    }
}

/// One input file, named by its path bytes.
pub struct Pgn {
    pub path: Vec<u8>,
}

impl Pgn {
    /// Wraps a path.
    pub fn new(path: Vec<u8>) -> (r: Pgn)
        ensures
            r.path@ == path@,
    {
        Pgn { path }
    }

    /// The file's name: everything after the last `/`.
    fn file_name(&self) -> (r: Vec<u8>)
        ensures
            r@ == file_name_spec(self.path@),
    {
        let n = self.path.len();
        proof {
            lemma_rfind_spec_bound(self.path@, '/' as u8);
        }
        match rfind_byte(self.path.as_slice(), '/' as u8) {
            Some(i) => sub_vec(self.path.as_slice(), i + 1, n),
            None => sub_vec(self.path.as_slice(), 0, n),
        }
    }

    /// Where this file's rows go: its name with the extension replaced by
    /// `csv`, inside the given directory.
    pub fn csv_path(&self, csv_dir: &[u8]) -> (r: Vec<u8>)
        ensures
            r@ == csv_path_spec(csv_dir@, self.path@),
    {
        let name = self.file_name();
        proof {
            lemma_rfind_spec_bound(name@, '.' as u8);
        }
        let stem = match rfind_byte(name.as_slice(), '.' as u8) {
            Some(i) => sub_vec(name.as_slice(), 0, i),
            None => sub_vec(name.as_slice(), 0, name.len()),
        };
        let mut r = sub_vec(csv_dir, 0, csv_dir.len());
        r.push('/' as u8);
        let mut stem_part = stem;
        r.append(&mut stem_part);
        let mut ext: Vec<u8> = vec!['.' as u8, 'c' as u8, 's' as u8, 'v' as u8];
        r.append(&mut ext);
        proof {
            assert(r@ =~= csv_path_spec(csv_dir@, self.path@));
        }
        r
    }

    /// The compression this file's extension calls for.
    pub fn compression(&self) -> (r: Compression)
        ensures
            r == compression_spec(self.path@),
    {
        let name = self.file_name();
        let n = name.len();
        proof {
            lemma_rfind_spec_bound(name@, '.' as u8);
        }
        match rfind_byte(name.as_slice(), '.' as u8) {
            Some(i) => {
                let ext = sub_vec(name.as_slice(), i + 1, n);
                let bz2: Vec<u8> = vec!['b' as u8, 'z' as u8, '2' as u8];
                let zst: Vec<u8> = vec!['z' as u8, 's' as u8, 't' as u8];
                proof {
                    assert(bz2@ =~= lit_bz2());
                    assert(zst@ =~= lit_zst());
                }
                if bytes_eq(ext.as_slice(), bz2.as_slice()) {
                    Compression::Bzip2
                } else if bytes_eq(ext.as_slice(), zst.as_slice()) {
                    Compression::Zstd
                } else {
                    Compression::Plain
                }
            },
            None => Compression::Plain,
        }
    }
}

} // verus!

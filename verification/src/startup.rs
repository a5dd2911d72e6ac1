//! Start-up settings: the defaults of the listen address and database URL,
//! and the file that a SQLite database URL points at.

use vstd::prelude::*;

use crate::fields::{first_piece, first_piece_of};
use crate::text::{chars_of, string_from_chars};

verus! {

/// The characters `sqlite:`.
pub open spec fn sqlite_scheme() -> Seq<char> {
    seq!['s', 'q', 'l', 'i', 't', 'e', ':']
}

/// The database file of a SQLite URL: what follows `sqlite:` up to the first
/// `?`; nothing for a URL of another kind.
pub open spec fn sqlite_file_path_spec(url: Seq<char>) -> Option<Seq<char>> {
    if url.len() >= 7 && url.take(7) == sqlite_scheme() {
        Some(first_piece(url.skip(7), '?'))
    } else {
        None
    }
}

/// The database file that a SQLite URL points at, whose directory must
/// exist before the database is opened.
pub fn sqlite_file_path(database_url: &str) -> (res: Option<String>)
    ensures
        match res {
            Some(p) => sqlite_file_path_spec(database_url@) == Some(p@),
            None => sqlite_file_path_spec(database_url@) is None,
        },
{
    let cs = chars_of(database_url);
    if cs.len() < 7 {
        return None;
    }
    let scheme: [char; 7] = ['s', 'q', 'l', 'i', 't', 'e', ':'];
    let mut i: usize = 0;
    while i < 7
        invariant
            i <= 7 <= cs@.len(),
            cs@ == database_url@,
            scheme@ == sqlite_scheme(),
            forall|k: int| 0 <= k < i ==> cs@[k] == sqlite_scheme()[k],
        decreases 7 - i,
    {
        if cs[i] != scheme[i] {
            assert(cs@.take(7)[i as int] != sqlite_scheme()[i as int]);
            return None;
        }
        i = i + 1;
    }
    assert(cs@.take(7) =~= sqlite_scheme());
    let mut rest: Vec<char> = Vec::new();
    let mut j: usize = 7;
    while j < cs.len()
        invariant
            7 <= j <= cs@.len(),
            rest@ == cs@.subrange(7, j as int),
        decreases cs@.len() - j,
    {
        rest.push(cs[j]);
        j = j + 1;
        assert(rest@ =~= cs@.subrange(7, j as int));
    }
    assert(rest@ =~= cs@.skip(7));
    let path = first_piece_of(rest.as_slice(), '?');
    Some(string_from_chars(path.as_slice()))
}

/// The listen address used when none is configured.
pub fn default_listen_addr() -> (res: &'static str)
    ensures
        res@ == "0.0.0.0:3000"@,
{
    "0.0.0.0:3000"
}

/// The database URL used when none is configured.
pub fn default_database_url() -> (res: &'static str)
    ensures
        res@ == "sqlite:data/login_demo.db?mode=rwc"@,
{
    "sqlite:data/login_demo.db?mode=rwc"
}

} // verus!

//! Challenge links: a page address ending in `?c=map,wave,score` invites
//! the player to beat a friend's result on a map.

use vstd::prelude::*;
use crate::text::{after_prefix, chars_of, has_prefix, parse_unsigned, parse_window, split_on, split_window, window_has_prefix};

verus! {

/// The challenge a link carries; all empty when the link has none.
pub struct ChallengeParams {
    pub map_name: Option<String>,
    pub wave: Option<usize>,
    pub score: Option<u32>,
}

/// The comma-separated pieces after `?c=`, when the query string starts
/// with it.
pub open spec fn challenge_pieces(search: Seq<char>) -> Option<Seq<Seq<char>>> {
    if has_prefix(search, "?c="@) {
        Some(split_on(after_prefix(search, "?c="@), ','))
    } else {
        None
    }
}

impl ChallengeParams {
    /// A query string carries a challenge when it starts with `?c=` and
    /// holds at least two pieces.
    pub open spec fn spec_has_challenge(search: Seq<char>) -> bool {
        challenge_pieces(search) is Some && challenge_pieces(search)->0.len() >= 2
    }

    /// Reads the challenge from a page's query string: the map name is the
    /// first piece; wave and score are the second and third read as
    /// numbers, each empty when it does not read.
    pub fn from_query(search: &str) -> (p: ChallengeParams)
        ensures
            !ChallengeParams::spec_has_challenge(search@) ==> p.map_name is None && p.wave is None
                && p.score is None,
            ChallengeParams::spec_has_challenge(search@) ==> {
                let pieces = challenge_pieces(search@)->0;
                &&& p.map_name is Some
                &&& p.map_name->0@ == pieces[0]
                &&& match p.wave {
                    Some(w) => parse_unsigned(pieces[1], usize::MAX as nat) == Some(w as nat),
                    None => parse_unsigned(pieces[1], usize::MAX as nat) is None,
                }
                &&& match p.score {
                    Some(s) => pieces.len() >= 3 && parse_unsigned(pieces[2], u32::MAX as nat)
                        == Some(s as nat),
                    None => pieces.len() < 3 || parse_unsigned(pieces[2], u32::MAX as nat) is None,
                }
            },
    {
        let none = ChallengeParams { map_name: None, wave: None, score: None };
        let v = chars_of(search);
        let n = v.len();
        if !window_has_prefix(&v, 0, n, "?c=") {
            assert(v@.subrange(0, n as int) =~= search@);
            return none;
        }
        let start = "?c=".unicode_len();
        assert(v@.subrange(0, n as int) =~= search@);
        assert(v@.subrange(start as int, n as int) =~= after_prefix(search@, "?c="@));
        let parts = split_window(&v, start, n, ',');
        if parts.len() < 2 {
            return none;
        }
        let (a0, b0) = parts[0];
        let (a1, b1) = parts[1];
        let name = search.substring_char(a0, b0);
        let wave = match parse_window(&v, a1, b1, usize::MAX as u64) {
            Some(w) => Some(w as usize),
            None => None,
        };
        let score = if parts.len() >= 3 {
            let (a2, b2) = parts[2];
            match parse_window(&v, a2, b2, u32::MAX as u64) {
                Some(s) => Some(s as u32),
                None => None,
            }
        } else {
            None
        };
        ChallengeParams { map_name: Some(String::from_str(name)), wave, score }
    }
}

} // verus!

//! Parsing of request path segments into an id plus an optional extension.
//!
//! A segment such as `"ab12Xy.rs"` is split on its last `.`; the part before
//! must be a valid id token, the part after, when present, is the extension
//! and must be ASCII. A segment without a dot carries no extension. The
//! extension named by a key overrides the one stored with an entry when the
//! entry is rendered, but never changes what is stored.

use vstd::prelude::*;

use crate::Error;
use crate::id::{encoded, valid_token, Id};

verus! {

/// Index of the last `.` in `s`, or `-1` when there is none.
pub open spec fn last_dot(s: Seq<char>) -> int
    decreases s.len(),
{
    if s.len() == 0 {
        -1
    } else if s[s.len() - 1] == '.' {
        s.len() - 1
    } else {
        last_dot(s.drop_last())
    }
}

/// The part of `s` before its last dot, or all of `s` without one.
pub open spec fn id_part(s: Seq<char>) -> Seq<char> {
    if last_dot(s) < 0 {
        s
    } else {
        s.subrange(0, last_dot(s))
    }
}

/// The part of `s` after its last dot, or `None` without one.
pub open spec fn ext_part(s: Seq<char>) -> Option<Seq<char>> {
    if last_dot(s) < 0 {
        None
    } else {
        Some(s.subrange(last_dot(s) + 1, s.len() as int))
    }
}

/// Whether the extension of `s`, if any, holds only ASCII characters.
pub open spec fn ext_ok(s: Seq<char>) -> bool {
    match ext_part(s) {
        None => true,
        Some(p) => vstd::utf8::is_ascii_chars(p),
    }
}

/// `last_dot` names a dot with no dot after it; without dots it is `-1`.
proof fn lemma_last_dot(s: Seq<char>)
    ensures
        last_dot(s) < 0 ==> forall|k: int| 0 <= k < s.len() ==> s[k] != '.',
        last_dot(s) >= 0 ==> last_dot(s) < s.len() && s[last_dot(s)] == '.' && forall|k: int|
            last_dot(s) < k < s.len() ==> s[k] != '.',
    decreases s.len(),
{
    if s.len() > 0 && s[s.len() - 1] != '.' {
        lemma_last_dot(s.drop_last());
        assert(forall|k: int| 0 <= k < s.len() - 1 ==> s[k] == s.drop_last()[k]);
    }
}

/// Any dot with no dot after it is the last dot.
proof fn lemma_dot_is_last(s: Seq<char>, j: int)
    requires
        0 <= j < s.len(),
        s[j] == '.',
        forall|k: int| j < k < s.len() ==> s[k] != '.',
    ensures
        last_dot(s) == j,
    decreases s.len(),
{
    if j < s.len() - 1 {
        lemma_dot_is_last(s.drop_last(), j);
    }
}

/// A parsed request identifier: an id plus an optional extension override.
#[derive(Debug)]
pub struct Key {
    pub id: Id,
    pub extension: Option<String>,
}

/// Finds the index of the last `.` of `s`, if any.
fn find_last_dot(s: &str) -> (r: Option<usize>)
    ensures
        match r {
            Some(j) => j == last_dot(s@) && j < s@.len(),
            None => last_dot(s@) < 0,
        },
{
    let n = s.unicode_len();
    let mut i: usize = n;
    while i > 0
        invariant
            i <= n,
            n == s@.len(),
            forall|k: int| i <= k < n ==> s@[k] != '.',
        decreases i,
    {
        i = i - 1;
        if s.get_char(i) == '.' {
            proof {
                lemma_dot_is_last(s@, i as int);
            }
            return Some(i);
        }
    }
    proof {
        lemma_last_dot(s@);
    }
    None
}

impl Key {
    /// The extension override this key carries, as a sequence.
    pub open spec fn ext_view(self) -> Option<Seq<char>> {
        match self.extension {
            Some(e) => Some(e@),
            None => None,
        }
    }

    /// The extension a read through this key renders under: the key's own
    /// extension when present, else `stored`, else plain text.
    pub fn effective_extension(&self, stored: &Option<String>) -> (r: String)
        ensures
            r@ == crate::model::effective_ext(
                self.ext_view(),
                match *stored {
                    Some(e) => Some(e@),
                    None => None,
                },
            ),
    {
        match &self.extension {
            Some(e) => e.clone(),
            None => match stored {
                Some(e) => e.clone(),
                None => String::from_str("txt"),
            },
        }
    }

    /// Parses a path segment. The prefix before the last dot must decode to
    /// an id, else the segment is rejected as an invalid id; an extension
    /// after the dot must be ASCII, else its characters are illegal.
    pub fn parse(s: &str) -> (r: Result<Key, Error>)
        ensures
            match r {
                Ok(k) => {
                    &&& valid_token(id_part(s@))
                    &&& ext_ok(s@)
                    &&& id_part(s@) =~= encoded(k.id.value)
                    &&& match (k.extension, ext_part(s@)) {
                        (Some(e), Some(p)) => e@ =~= p,
                        (None, None) => true,
                        _ => false,
                    }
                },
                Err(e) => {
                    &&& !(valid_token(id_part(s@)) && ext_ok(s@))
                    &&& e == (if !valid_token(id_part(s@)) {
                        Error::InvalidId
                    } else {
                        Error::IllegalCharacters
                    })
                },
            },
    {
        let n = s.unicode_len();
        match find_last_dot(s) {
            None => {
                let id = Id::parse(s)?;
                Ok(Key { id, extension: None })
            },
            Some(j) => {
                let prefix = s.substring_char(0, j);
                let id = Id::parse(prefix)?;
                let ext = s.substring_char(j + 1, n);
                if !ext.is_ascii() {
                    return Err(Error::IllegalCharacters);
                }
                Ok(Key { id, extension: Some(String::from_str(ext)) })
            },
        }
    }
}

} // verus!

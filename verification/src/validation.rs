//! Lexical checks on user-supplied strings: the single-word validator for
//! secret words and the socket-path shape test for the process argument.
use vstd::prelude::*;
use vstd::std_specs::iter::IteratorSpec;

verus! {

broadcast use vstd::string::group_string_axioms;

/// What `char::is_alphabetic` returns; the result depends on the character alone.
pub uninterp spec fn alphabetic_char(c: char) -> bool;

/// What `char::is_lowercase` returns; the result depends on the character alone.
pub uninterp spec fn lowercase_char(c: char) -> bool;

/// Relies on `char::is_alphabetic` (the Unicode `Alphabetic` property).
#[verifier::external_body]
fn char_is_alphabetic(c: char) -> (r: bool)
    ensures
        r == alphabetic_char(c),
{
    c.is_alphabetic()
}

/// Relies on `char::is_lowercase` (the Unicode `Lowercase` property).
#[verifier::external_body]
fn char_is_lowercase(c: char) -> (r: bool)
    ensures
        r == lowercase_char(c),
{
    c.is_lowercase()
}

/// A valid secret word: nonempty, every character alphabetic and lowercase.
pub open spec fn valid_word(s: Seq<char>) -> bool {
    &&& s.len() > 0
    &&& forall|i: int| 0 <= i < s.len() ==> alphabetic_char(#[trigger] s[i]) && lowercase_char(s[i])
}

/// Accept exactly the nonempty words made of alphabetic lowercase characters.
pub fn is_valid_word(input: &str) -> (r: bool)
    ensures
        r == valid_word(input@),
{
    let mut it = input.chars();
    let ghost all: Seq<char> = input@;
    let ghost mut seen: int = 0;
    let mut nonempty: bool = false;
    loop
        invariant
            all == input@,
            it.remaining() =~= all.subrange(seen, all.len() as int),
            0 <= seen <= all.len(),
            nonempty == (seen > 0),
            forall|i: int|
                0 <= i < seen ==> alphabetic_char(#[trigger] all[i]) && lowercase_char(all[i]),
        decreases all.len() - seen,
    {
        match it.next() {
            None => {
                assert(seen == all.len());
                return nonempty;
            },
            Some(c) => {
                assert(c == all[seen]);
                if !(char_is_alphabetic(c) && char_is_lowercase(c)) {
                    return false;
                }
                proof {
                    seen = seen + 1;
                }
                nonempty = true;
            },
        }
    }
}

fn chars_of(s: &str) -> (r: Vec<char>)
    ensures
        r@ == s@,
{
    let mut it = s.chars();
    let ghost all: Seq<char> = s@;
    let ghost mut seen: int = 0;
    let mut r: Vec<char> = Vec::new();
    loop
        invariant
            all == s@,
            it.remaining() =~= all.subrange(seen, all.len() as int),
            0 <= seen <= all.len(),
            r@ == all.subrange(0, seen),
        decreases all.len() - seen,
    {
        match it.next() {
            None => {
                proof {
                    assert(all.subrange(0, seen) =~= all);
                }
                return r;
            },
            Some(c) => {
                r.push(c);
                proof {
                    assert(all.subrange(0, seen).push(all[seen]) =~= all.subrange(0, seen + 1));
                    seen = seen + 1;
                }
            },
        }
    }
}

/// The lexical shape of a socket-file path: it ends in `.sock` with a
/// nonempty file stem before the dot.
pub open spec fn valid_sock_path(s: Seq<char>) -> bool {
    &&& s.len() >= 6
    &&& s.subrange(s.len() - 5, s.len() as int) == ".sock"@
    &&& s[s.len() - 6] != '/'
}

/// Whether the argument names a socket file by shape alone: it ends in
/// `.sock` with a nonempty file stem. Whether such a file exists is the
/// caller's concern.
pub fn is_valid_sock_path(path: &str) -> (r: bool)
    ensures
        r == valid_sock_path(path@),
{
    let cs = chars_of(path);
    let n = cs.len();
    if n < 6 {
        return false;
    }
    let ok = cs[n - 5] == '.' && cs[n - 4] == 's' && cs[n - 3] == 'o' && cs[n - 2] == 'c' && cs[n
        - 1] == 'k' && cs[n - 6] != '/';
    proof {
        reveal_strlit(".sock");
        let suf = path@.subrange(n - 5, n as int);
        assert(suf.len() == 5);
        if ok {
            assert(suf =~= ".sock"@);
        } else {
            if suf == ".sock"@ && cs@[n - 6] != '/' {
                assert(cs@[n - 5] == suf[0] && cs@[n - 4] == suf[1] && cs@[n - 3] == suf[2] && cs@[n
                    - 2] == suf[3] && cs@[n - 1] == suf[4]);
            }
        }
    }
    ok
}

} // verus!

//! The project roots: one per line of a configuration value, with `~` at the
//! start of a line standing for the home directory.

use vstd::prelude::*;
use vstd::string::*;
use crate::text::{find_char_from, find_from, trim, trim_spaces};

verus! {

/// A line with `~` at its start replaced by `home`; any other line as it is.
pub open spec fn expand_home(line: Seq<char>, home: Seq<char>) -> Seq<char> {
    if line.len() > 0 && line[0] == '~' {
        home + line.skip(1)
    } else {
        line
    }
}

/// The roots named by the lines of `value` that begin at or after `pos`:
/// each line trimmed, blank lines left out, `~` expanded.
pub open spec fn roots_from(value: Seq<char>, home: Seq<char>, pos: int) -> Seq<Seq<char>>
    decreases value.len() - pos,
{
    if pos < 0 || pos > value.len() {
        Seq::empty()
    } else {
        let end = find_from(value, '\n', pos);
        let line = trim(value.subrange(pos, end));
        let head = if line.len() == 0 {
            Seq::empty()
        } else {
            seq![expand_home(line, home)]
        };
        if pos <= end < value.len() {
            head + roots_from(value, home, end + 1)
        } else {
            head
        }
    }
}

/// The roots named by `value`.
pub open spec fn roots_of(value: Seq<char>, home: Seq<char>) -> Seq<Seq<char>> {
    roots_from(value, home, 0)
}

/// The characters of each string, in order.
pub open spec fn string_views(strings: Seq<String>) -> Seq<Seq<char>> {
    strings.map_values(|s: String| s@)
}

/// A line with `~` at its start replaced by `home`; any other line as it is.
pub fn expand_tilde(line: &str, home: &str) -> (r: String)
    ensures
        r@ == expand_home(line@, home@),
{
    let n: usize = line.unicode_len();
    if n > 0 && line.get_char(0) == '~' {
        let rest: &str = line.substring_char(1, n);
        proof {
            assert(line@.subrange(1, n as int) =~= line@.skip(1));
        }
        home.to_owned().concat(rest)
    } else {
        line.to_owned()
    }
}

/// The roots named by a configuration value: one per line, trimmed, blank
/// lines left out, `~` at the start of a line replaced by `home`.
pub fn expand_roots(value: &str, home: &str) -> (out: Vec<String>)
    ensures
        string_views(out@) == roots_of(value@, home@),
{
    let n: usize = value.unicode_len();
    let mut out: Vec<String> = Vec::new();
    let mut pos: usize = 0;
    let mut more: bool = true;
    proof {
        assert(string_views(out@) + roots_from(value@, home@, 0) =~= roots_of(value@, home@));
    }
    while more
        invariant
            n == value@.len(),
            pos <= n,
            more ==> string_views(out@) + roots_from(value@, home@, pos as int) == roots_of(
                value@,
                home@,
            ),
            !more ==> string_views(out@) == roots_of(value@, home@),
        decreases (if more { n - pos + 1 } else { 0 }),
    {
        let end: usize = find_char_from(value, '\n', pos);
        let line: &str = trim_spaces(value.substring_char(pos, end));
        let ghost before = string_views(out@);
        let ghost tail = if end < n {
            roots_from(value@, home@, end + 1)
        } else {
            Seq::<Seq<char>>::empty()
        };
        if line.unicode_len() > 0 {
            let root: String = expand_tilde(line, home);
            let ghost old_out = out@;
            out.push(root);
            proof {
                assert(string_views(out@) =~= string_views(old_out).push(root@));
                assert(string_views(out@) + tail =~= before + (seq![root@] + tail));
            }
        } else {
            proof {
                assert(string_views(out@) + tail =~= before + (Seq::<Seq<char>>::empty() + tail));
            }
        }
        if end < n {
            pos = end + 1;
        } else {
            more = false;
            proof {
                assert(string_views(out@) + tail =~= string_views(out@));
            }
        }
    }
    out
}

} // verus!

//! The remote side: its address, and its inventory as the remote listing
//! gives it.

use crate::inventory::{from_names, names_last, stamp_of, FileList, TimeStamp};
use crate::util::texts;
use vstd::prelude::*;

verus! {

/// Where the backups go: the user to log in as, the host with its port,
/// and the directory on that host.
pub struct Remote {
    pub username: String,
    pub remote: String,
    pub path: String,
}

/// Why a text is no remote address.
#[derive(Clone, Copy, Debug, PartialEq, Eq, Structural)]
pub enum RemoteError {
    /// No colon sets a path off.
    MissingPath,
    /// No `@` sets a user off in what stands before the path.
    MissingUser,
}

/// The last colon of `s` stands at `c`.
pub open spec fn last_colon(s: Seq<char>, c: int) -> bool {
    &&& 0 <= c < s.len()
    &&& s[c] == ':'
    &&& forall|i: int| c < i < s.len() ==> s[i] != ':'
}

/// The first `@` of `s` stands at `a`.
pub open spec fn first_at(s: Seq<char>, a: int) -> bool {
    &&& 0 <= a < s.len()
    &&& s[a] == '@'
    &&& forall|i: int| 0 <= i < a ==> s[i] != '@'
}

/// `r` is what the address `s` says: the path is what follows the last
/// colon, the user what precedes the first `@` before that colon, and the
/// host what stands between the two.
pub open spec fn remote_parsed(s: Seq<char>, r: Result<Remote, RemoteError>) -> bool {
    match r {
        Ok(remote) => exists|a: int, c: int|
            {
                &&& last_colon(s, c)
                &&& #[trigger] first_at(s.subrange(0, c), a)
                &&& remote.username@ == s.subrange(0, a)
                &&& remote.remote@ == s.subrange(a + 1, c)
                &&& remote.path@ == s.subrange(c + 1, s.len() as int)
            },
        Err(RemoteError::MissingPath) => !s.contains(':'),
        Err(RemoteError::MissingUser) => exists|c: int| #[trigger]
            last_colon(s, c) && !s.subrange(0, c).contains('@'),
    }
}

impl Remote {
    /// Reads an address of the form `user@host:path` or
    /// `user@host:port:path`.
    pub fn from_str(s: &str) -> (r: Result<Remote, RemoteError>)
        ensures
            remote_parsed(s@, r),
    {
        let n = s.unicode_len();
        let mut c: usize = n;
        while c > 0 && s.get_char(c - 1) != ':'
            invariant
                c <= n,
                n == s@.len(),
                forall|i: int| c <= i < n ==> s@[i] != ':',
            decreases c,
        {
            c -= 1;
        }
        if c == 0 {
            assert(!s@.contains(':'));
            return Err(RemoteError::MissingPath);
        }
        let colon: usize = c - 1;
        assert(last_colon(s@, colon as int));
        let ghost head = s@.subrange(0, colon as int);
        let mut a: usize = 0;
        while a < colon && s.get_char(a) != '@'
            invariant
                a <= colon < n,
                n == s@.len(),
                forall|i: int| 0 <= i < a ==> s@[i] != '@',
            decreases colon - a,
        {
            a += 1;
        }
        if a == colon {
            assert(!head.contains('@')) by {
                if head.contains('@') {
                    let i = head.index_of('@');
                    assert(s@[i] == '@');
                }
            }
            return Err(RemoteError::MissingUser);
        }
        assert(first_at(head, a as int));
        let remote = Remote {
            username: String::from_str(s.substring_char(0, a)),
            remote: String::from_str(s.substring_char(a + 1, colon)),
            path: String::from_str(s.substring_char(colon + 1, n)),
        };
        Ok(remote)
    }
}

/// The command that lists the remote root, one name on each line and in
/// no particular order.
pub open spec fn list_command_text(path: Seq<char>) -> Seq<char> {
    "ls -1NU \""@ + path + "\""@
}

pub fn list_command(path: &str) -> (s: String)
    ensures
        s@ == list_command_text(path@),
{
    let mut s = String::from_str("ls -1NU \"");
    s.append(path);
    s.append("\"");
    s
}

/// The lines of a text: what `str::lines` of the standard library yields.
pub uninterp spec fn text_lines(text: Seq<char>) -> Seq<Seq<char>>;

/// Calls `str::lines` and copies each line into a string of its own. Not
/// proved: that these are the lines of the text, in order, each without
/// its line ending.
#[verifier::external_body]
fn split_lines(text: &str) -> (lines: Vec<String>)
    ensures
        texts(lines@) == text_lines(text@),
{
    text.lines().map(|line| line.to_string()).collect()
}

/// Why a remote listing gives no inventory.
#[derive(Clone, Copy, Debug, PartialEq, Eq, Structural)]
pub enum ListingError {
    /// The line with this index is no date and time.
    BadLine { index: usize },
}

/// Builds the remote inventory from the lines of the remote listing. A
/// line that is no date and time spoils the whole listing.
pub fn inventory_of_lines(lines: &Vec<String>) -> (r: Result<FileList, ListingError>)
    ensures
        match r {
            Ok(list) => {
                &&& list.wf()
                &&& forall|j: int| 0 <= j < lines.len() ==> stamp_of(#[trigger] lines[j]@) is Some
                &&& forall|t: TimeStamp|
                    list.has(t) <==> exists|i: int|
                        0 <= i < lines.len() && stamp_of(#[trigger] lines[i]@) == Some(t)
                &&& forall|i: int, t: TimeStamp| #[trigger]
                    names_last(lines@, i, t) ==> list.name_of(t) == lines[i]@
            },
            Err(ListingError::BadLine { index }) => {
                &&& index < lines.len()
                &&& stamp_of(lines[index as int]@) is None
                &&& forall|j: int| 0 <= j < index ==> stamp_of(#[trigger] lines[j]@) is Some
            },
        },
{
    match from_names(lines, true) {
        Ok(list) => Ok(list),
        Err(index) => Err(ListingError::BadLine { index }),
    }
}

/// The `i`-th line is the last one that denotes the instant `t`.
pub open spec fn lines_last(lines: Seq<Seq<char>>, i: int, t: TimeStamp) -> bool {
    &&& 0 <= i < lines.len()
    &&& stamp_of(lines[i]) == Some(t)
    &&& forall|j: int| i < j < lines.len() ==> stamp_of(#[trigger] lines[j]) != Some(t)
}

/// Builds the remote inventory from the output of the listing command:
/// each line names a snapshot and is the date and time it was taken.
pub fn file_list(listing: &str) -> (r: Result<FileList, ListingError>)
    ensures
        match r {
            Ok(list) => {
                &&& list.wf()
                &&& forall|j: int|
                    0 <= j < text_lines(listing@).len() ==> stamp_of(
                        #[trigger] text_lines(listing@)[j],
                    ) is Some
                &&& forall|t: TimeStamp|
                    list.has(t) <==> exists|i: int|
                        0 <= i < text_lines(listing@).len() && stamp_of(
                            #[trigger] text_lines(listing@)[i],
                        ) == Some(t)
                &&& forall|i: int, t: TimeStamp| #[trigger]
                    lines_last(text_lines(listing@), i, t) ==> list.name_of(t) == text_lines(
                        listing@,
                    )[i]
            },
            Err(ListingError::BadLine { index }) => {
                &&& index < text_lines(listing@).len()
                &&& stamp_of(text_lines(listing@)[index as int]) is None
                &&& forall|j: int|
                    0 <= j < index ==> stamp_of(#[trigger] text_lines(listing@)[j]) is Some
            },
        },
{
    let lines = split_lines(listing);
    let ghost tl = text_lines(listing@);
    assert(tl.len() == lines.len());
    assert forall|i: int| 0 <= i < lines.len() implies #[trigger] lines[i]@ == tl[i] by {
        assert(texts(lines@)[i] == lines[i]@);
    }
    let r = inventory_of_lines(&lines);
    proof {
        match &r {
            Ok(list) => {
                assert forall|j: int| 0 <= j < tl.len() implies stamp_of(#[trigger] tl[j]) is Some by {
                    assert(stamp_of(lines[j]@) is Some);
                }
                assert forall|t: TimeStamp| list.has(t) <==> exists|i: int|
                    0 <= i < tl.len() && stamp_of(#[trigger] tl[i]) == Some(t) by {
                    if list.has(t) {
                        let i = choose|i: int|
                            0 <= i < lines.len() && stamp_of(#[trigger] lines[i]@) == Some(t);
                        assert(stamp_of(tl[i]) == Some(t));
                    }
                    if exists|i: int| 0 <= i < tl.len() && stamp_of(#[trigger] tl[i]) == Some(t) {
                        let i = choose|i: int|
                            0 <= i < tl.len() && stamp_of(#[trigger] tl[i]) == Some(t);
                        assert(stamp_of(lines[i]@) == Some(t));
                    }
                }
                assert forall|i: int, t: TimeStamp| #[trigger] lines_last(tl, i, t) implies list.name_of(
                    t,
                ) == tl[i] by {
                    assert(stamp_of(lines[i]@) == Some(t));
                    assert forall|j: int| i < j < lines.len() implies stamp_of(
                        #[trigger] lines[j]@,
                    ) != Some(t) by {
                        assert(stamp_of(tl[j]) != Some(t));
                    }
                    assert(names_last(lines@, i, t));
                }
            },
            Err(ListingError::BadLine { index }) => {
                assert forall|j: int| 0 <= j < *index implies stamp_of(#[trigger] tl[j]) is Some by {
                    assert(stamp_of(lines[j]@) is Some);
                }
            },
        }
    }
    r
}

} // verus!

//! Who may connect.

use crate::text;
use vstd::prelude::*;
use vstd::string::*;

verus! {

/// Judges the name and password that a client gives.
pub trait AuthProvider: Send + Sync {
    /// Whether this name with this password may connect.
    spec fn accepts(&self, username: Seq<char>, password: Seq<char>) -> bool;

    fn authenticate(&self, username: &str, password: &str) -> (r: bool)
        ensures
            r == self.accepts(username@, password@),
    ;
}

/// Lets everybody in.
pub struct AllowAllAuth;

impl AuthProvider for AllowAllAuth {
    open spec fn accepts(&self, username: Seq<char>, password: Seq<char>) -> bool {
        true
    }

    fn authenticate(&self, username: &str, password: &str) -> (r: bool) {
        true
    }
}

/// The name and password in a line: the parts before and behind its first
/// colon. A blank line and one that starts with `#` hold none.
pub open spec fn credential_of(line: Seq<char>) -> Option<(Seq<char>, Seq<char>)> {
    let t = text::trim(line);
    let i = text::first_index(t, ':');
    if t.len() == 0 || t[0] == '#' || i >= t.len() {
        None
    } else {
        Some((t.take(i as int), t.skip((i + 1) as int)))
    }
}

/// The names and passwords in the lines, behind those in `seen`.
pub open spec fn credentials_of(
    lines: Seq<Seq<char>>,
    seen: Seq<(Seq<char>, Seq<char>)>,
) -> Seq<(Seq<char>, Seq<char>)>
    decreases lines.len(),
{
    if lines.len() == 0 {
        seen
    } else {
        credentials_of(
            lines.drop_first(),
            match credential_of(lines[0]) {
                Some(c) => seen.push(c),
                None => seen,
            },
        )
    }
}

fn read_credential(line: &[char]) -> (r: Option<(String, String)>)
    ensures
        match r {
            Some((user, pass)) => credential_of(line@) == Some((user@, pass@)),
            None => credential_of(line@) is None,
        },
{
    let t = text::trimmed(line);
    if t.len() == 0 || t[0] == '#' {
        return None;
    }
    let i: usize = text::find_from(t.as_slice(), ':', 0);
    assert(t@.skip(0) == t@);
    if i >= t.len() {
        return None;
    }
    let user = text::copy_range(t.as_slice(), 0, i);
    let pass = text::copy_range(t.as_slice(), i + 1, t.len());
    proof {
        assert(user@ == t@.take(i as int));
        assert(pass@ == t@.skip(i + 1));
    }
    Some((text::text_from(user.as_slice()), text::text_from(pass.as_slice())))
}

/// Lets in those whose name and password are on a list.
pub struct FileAuth {
    credentials: Vec<(String, String)>,
}

impl View for FileAuth {
    type V = Seq<(Seq<char>, Seq<char>)>;

    closed spec fn view(&self) -> Seq<(Seq<char>, Seq<char>)> {
        self.credentials.deep_view()
    }
}

impl FileAuth {
    pub fn new(credentials: Vec<(String, String)>) -> (r: Self)
        ensures
            r@ == credentials.deep_view(),
    {
        FileAuth { credentials }
    }

    /// Reads the list from the content of a file, one name and password a line.
    pub fn from_text(content: &str) -> (r: Self)
        ensures
            r@ == credentials_of(text::lines_with_ends(content@), Seq::empty()),
    {
        let chars = text::chars_of(content);
        let s: &[char] = chars.as_slice();
        let mut credentials: Vec<(String, String)> = Vec::new();
        let mut i: usize = 0;
        proof {
            assert(s@.skip(0) == s@);
            assert(credentials.deep_view() =~= Seq::<(Seq<char>, Seq<char>)>::empty());
        }
        while i < s.len()
            invariant
                s@ == content@,
                i <= s@.len(),
                credentials_of(
                    text::lines_with_ends(s@.skip(i as int)),
                    credentials.deep_view(),
                ) == credentials_of(text::lines_with_ends(content@), Seq::empty()),
            decreases s@.len() - i,
        {
            let to: usize = text::line_end(s, i);
            let line = vstd::slice::slice_subrange(s, i, to);
            let ghost before = credentials.deep_view();
            proof {
                let here = text::lines_with_ends(s@.skip(i as int));
                assert(here[0] == line@);
                assert(here.drop_first() == text::lines_with_ends(s@.skip(to as int)));
            }
            match read_credential(line) {
                Some(c) => {
                    credentials.push(c);
                    assert(credentials.deep_view() =~= before.push((c.0@, c.1@)));
                },
                None => {},
            }
            i = to;
        }
        assert(s@.skip(i as int).len() == 0);
        FileAuth { credentials }
    }
}

impl AuthProvider for FileAuth {
    open spec fn accepts(&self, username: Seq<char>, password: Seq<char>) -> bool {
        self@.contains((username, password))
    }

    fn authenticate(&self, username: &str, password: &str) -> (r: bool) {
        for i in 0..self.credentials.len()
            invariant
                forall|j: int| 0 <= j < i ==> self@[j] != (username@, password@),
        {
            let (user, pass) = &self.credentials[i];
            if text::same_text(user.as_str(), username) && text::same_text(
                pass.as_str(),
                password,
            ) {
                assert(self@[i as int] == (username@, password@));
                return true;
            }
        }
        assert(!self@.contains((username@, password@))) by {
            assert(self@.len() == self.credentials@.len());
        }
        false
    }
}

/// A colon in a password is part of the password.
pub proof fn law_password_may_hold_colons(user: Seq<char>, pass: Seq<char>)
    requires
        !user.contains(':'),
        user.len() > 0,
        user[0] != '#',
        !text::is_space(user[0]),
        pass.len() > 0,
        !text::is_space(pass.last()),
    ensures
        credential_of(user + seq![':'] + pass) == Some((user, pass)),
{
    let line = user + seq![':'] + pass;
    assert(line[0] == user[0]);
    assert(line.last() == pass.last());
    assert(text::trim(line) == line);
    text::lemma_first_index(line, ':');
    let i = text::first_index(line, ':') as int;
    assert(line[user.len() as int] == ':');
    if i < user.len() {
        assert(line[i] == user[i]);
        assert(user.contains(user[i]));
    }
    assert(i == user.len());
    assert(line.take(i) == user);
    assert(line.skip(i + 1) == pass);
}

} // verus!

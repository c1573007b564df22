//! The `Author` identity record and its three text encodings.
//!
//! The storage encoding is `alias | name | email`: the three fields joined
//! by pipe delimiters, each surrounded by optional blank padding. The alias
//! and the email are tokens (non-empty, no whitespace); the name is free
//! text and may itself contain a pipe, so the parser picks the earliest
//! second delimiter that still leaves a token-shaped email behind it.

use vstd::prelude::*;
use vstd::string::StrSliceExecFns;
use vstd::string::StringExecFns;

use crate::text::has_ink;
use crate::text::is_blank;
use crate::text::is_token;
use crate::text::trimmed;
use crate::text::blank;
use crate::text::token_str;
use crate::text::trim_str;
use crate::text::trimmed_token;

verus! {

/// An author identity: a stable lookup alias, a display name, and an email.
#[derive(Debug, PartialEq)]
pub struct Author {
    pub alias: String,
    pub name: String,
    pub email: String,
}

/// The parse failure signal: the input does not match the storage encoding.
#[derive(Debug, PartialEq, Eq)]
pub struct ParseError;

/// The mathematical value of an [`Author`]: its three fields as
/// character sequences.
pub ghost struct AuthorView {
    pub alias: Seq<char>,
    pub name: Seq<char>,
    pub email: Seq<char>,
}

impl View for Author {
    type V = AuthorView;

    open spec fn view(&self) -> AuthorView {
        AuthorView { alias: self.alias@, name: self.name@, email: self.email@ }
    }
}

impl AuthorView {
    /// A well-formed author value: the alias is a pipe-free token, the name
    /// is non-empty with no surrounding blanks, and the email is a token.
    /// Exactly the values that the storage encoding round-trips.
    pub open spec fn wf(self) -> bool {
        &&& is_token(self.alias)
        &&& forall|k: int| 0 <= k < self.alias.len() ==> self.alias[k] != '|'
        &&& self.name.len() > 0
        &&& !is_blank(self.name[0])
        &&& !is_blank(self.name.last())
        &&& is_token(self.email)
    }
}

/// The storage encoding of an author value.
pub open spec fn storage_text(a: AuthorView) -> Seq<char> {
    a.alias + " | "@ + a.name + " | "@ + a.email
}

/// The attribution encoding: `Name <email>`, with the alias dropped.
pub open spec fn patch_text(a: AuthorView) -> Seq<char> {
    a.name + " <"@ + a.email + ">"@
}

/// The display encoding for interactive listings: `[alias] Name <email>`.
pub open spec fn display_text(a: AuthorView) -> Seq<char> {
    "["@ + a.alias + "] "@ + a.name + " <"@ + a.email + ">"@
}

/// Index of the first pipe of `s` at or after `j`, or `s.len()` if none.
pub open spec fn pipe_from(s: Seq<char>, j: int) -> int
    decreases s.len() - j when 0 <= j <= s.len()
{
    if j >= s.len() {
        s.len() as int
    } else if s[j] == '|' {
        j
    } else {
        pipe_from(s, j + 1)
    }
}

/// Whether position `j` can close the name field that started after the
/// first delimiter `i`: it holds a pipe, some ink stands between the
/// delimiters, and what follows trims down to a token (the email).
pub open spec fn sep_ok(s: Seq<char>, i: int, j: int) -> bool {
    &&& s[j] == '|'
    &&& has_ink(s.subrange(i + 1, j))
    &&& is_token(trimmed(s.subrange(j + 1, s.len() as int)))
}

/// The earliest acceptable second delimiter at or after `j`, or `s.len()`
/// if none: the non-greedy name capture of the storage encoding.
pub open spec fn sep_from(s: Seq<char>, i: int, j: int) -> int
    decreases s.len() - j when 0 <= j <= s.len()
{
    if j >= s.len() {
        s.len() as int
    } else if sep_ok(s, i, j) {
        j
    } else {
        sep_from(s, i, j + 1)
    }
}

/// What parsing the storage encoding yields: `None` when the input has no
/// acceptable pair of delimiters or its first segment does not trim down
/// to a token, otherwise the three trimmed segments.
pub open spec fn spec_parse(s: Seq<char>) -> Option<AuthorView> {
    let i = pipe_from(s, 0);
    if i == s.len() {
        None
    } else if !is_token(trimmed(s.subrange(0, i))) {
        None
    } else {
        let j = sep_from(s, i, i + 1);
        if j == s.len() {
            None
        } else {
            Some(AuthorView {
                alias: trimmed(s.subrange(0, i)),
                name: trimmed(s.subrange(i + 1, j)),
                email: trimmed(s.subrange(j + 1, s.len() as int)),
            })
        }
    }
}

impl Author {
    /// Builds an author directly from three raw fields. This is the `add`
    /// path: no validation is applied, the caller owns the field contents.
    pub fn new(alias: String, name: String, email: String) -> (a: Author)
        ensures
            a@ == (AuthorView { alias: alias@, name: name@, email: email@ }),
    {
        Author { alias, name, email }
    }

    /// Renders the storage encoding, `alias | name | email`.
    pub fn serialize_storage(&self) -> (r: String)
        ensures
            r@ == storage_text(self@),
    {
        let mut out = String::new();
        out.append(self.alias.as_str());
        out.append(" | ");
        out.append(self.name.as_str());
        out.append(" | ");
        out.append(self.email.as_str());
        proof {
            assert(out@ =~= storage_text(self@));
        }
        out
    }

    /// Renders the attribution encoding, `Name <email>`; the alias is
    /// deliberately dropped, this form identifies a person, not a roster key.
    pub fn format_attribution(&self) -> (r: String)
        ensures
            r@ == patch_text(self@),
    {
        let mut out = String::new();
        out.append(self.name.as_str());
        out.append(" <");
        out.append(self.email.as_str());
        out.append(">");
        proof {
            assert(out@ =~= patch_text(self@));
        }
        out
    }

    /// Renders the display encoding, `[alias] Name <email>`.
    pub fn format_display(&self) -> (r: String)
        ensures
            r@ == display_text(self@),
    {
        let mut out = String::new();
        out.append("[");
        out.append(self.alias.as_str());
        out.append("] ");
        out.append(self.name.as_str());
        out.append(" <");
        out.append(self.email.as_str());
        out.append(">");
        proof {
            assert(out@ =~= display_text(self@));
        }
        out
    }

    /// Parses the storage encoding. Fails with [`ParseError`] exactly when
    /// the input has no acceptable pair of delimiters, or a first or third
    /// segment that does not trim down to a whitespace-free token, or an
    /// all-blank middle segment.
    pub fn from_str(value: &str) -> (r: Result<Author, ParseError>)
        ensures
            match r {
                Ok(a) => spec_parse(value@) == Some(a@),
                Err(_) => spec_parse(value@) is None,
            },
    {
        let s = value;
        let n: usize = s.unicode_len();
        let mut i: usize = 0;
        while i < n && s.get_char(i) != '|'
            invariant
                i <= n,
                n == s@.len(),
                forall|k: int| 0 <= k < i ==> s@[k] != '|',
            decreases n - i,
        {
            i = i + 1;
        }
        proof {
            lemma_pipe_from(s@, 0);
            assert(pipe_from(s@, 0) == i);
        }
        if i == n {
            return Err(ParseError);
        }
        let alias = trim_str(s.substring_char(0, i));
        if !token_str(alias.as_str()) {
            return Err(ParseError);
        }
        let mut j: usize = i + 1;
        let mut seen_ink: bool = false;
        let mut found: bool = false;
        while !found && j < n
            invariant
                i < j <= n,
                n == s@.len(),
                s@[i as int] == '|',
                seen_ink == has_ink(s@.subrange(i + 1, j as int)),
                forall|k: int| i + 1 <= k < j ==> !sep_ok(s@, i as int, k),
                found ==> j < n && sep_ok(s@, i as int, j as int),
            decreases n - j + (if found { 0int } else { 1int }),
        {
            let c = s.get_char(j);
            let mut hit: bool = false;
            if c == '|' && seen_ink {
                if trimmed_token(s.substring_char(j + 1, n)) {
                    hit = true;
                }
            }
            if hit {
                found = true;
            } else {
                proof {
                    let a = s@.subrange(i + 1, j as int);
                    let b = s@.subrange(i + 1, j + 1);
                    assert(b =~= a.push(s@[j as int]));
                    if has_ink(a) {
                        let w = choose|k: int| 0 <= k < a.len() && !is_blank(a[k]);
                        assert(b[w] == a[w]);
                        assert(has_ink(b));
                    }
                    if !is_blank(s@[j as int]) {
                        assert(b[b.len() - 1] == s@[j as int]);
                        assert(has_ink(b));
                    }
                    if has_ink(b) && !has_ink(a) && is_blank(s@[j as int]) {
                        let w = choose|k: int| 0 <= k < b.len() && !is_blank(b[k]);
                        assert(w < a.len() ==> b[w] == a[w]);
                        assert(false);
                    }
                }
                seen_ink = seen_ink || !blank(c);
                j = j + 1;
            }
        }
        proof {
            lemma_sep_from(s@, i as int, i + 1);
        }
        if !found {
            proof {
                assert(sep_from(s@, i as int, i + 1) == n);
            }
            return Err(ParseError);
        }
        proof {
            assert(sep_from(s@, i as int, i + 1) == j);
        }
        let name = trim_str(s.substring_char(i + 1, j));
        let email = trim_str(s.substring_char(j + 1, n));
        Ok(Author { alias, name, email })
    }
}

impl ParseError {
    /// The failure text the original surfaced for this error.
    pub fn message(&self) -> (m: String)
        ensures
            m@ == "Parse Error"@,
    {
        String::from_str("Parse Error")
    }
}

/// `pipe_from` finds the first pipe at or after `j`: nothing before it is
/// a pipe, and it lands on one unless it ran off the end.
pub proof fn lemma_pipe_from(s: Seq<char>, j: int)
    requires
        0 <= j <= s.len(),
    ensures
        j <= pipe_from(s, j) <= s.len(),
        forall|k: int| j <= k < pipe_from(s, j) ==> s[k] != '|',
        pipe_from(s, j) < s.len() ==> s[pipe_from(s, j)] == '|',
    decreases s.len() - j,
{
    if j < s.len() && s[j] != '|' {
        lemma_pipe_from(s, j + 1);
    }
}

/// `sep_from` finds the earliest acceptable second delimiter: nothing
/// before it is acceptable, and it lands on an acceptable position unless
/// it ran off the end.
pub proof fn lemma_sep_from(s: Seq<char>, i: int, j: int)
    requires
        0 <= j <= s.len(),
    ensures
        j <= sep_from(s, i, j) <= s.len(),
        forall|k: int| j <= k < sep_from(s, i, j) ==> !sep_ok(s, i, k),
        sep_from(s, i, j) < s.len() ==> sep_ok(s, i, sep_from(s, i, j)),
    decreases s.len() - j,
{
    if j < s.len() && !sep_ok(s, i, j) {
        lemma_sep_from(s, i, j + 1);
    }
}

/// Whatever the parser accepts is well-formed: the alias is a pipe-free
/// token, the name is non-empty with no surrounding blanks, and the email
/// is a token.
pub proof fn lemma_parse_wf(s: Seq<char>)
    requires
        spec_parse(s) is Some,
    ensures
        spec_parse(s).unwrap().wf(),
{
    let i = pipe_from(s, 0);
    lemma_pipe_from(s, 0);
    let left = s.subrange(0, i);
    crate::text::lemma_ink_start(left);
    crate::text::lemma_ink_end(left);
    let al = trimmed(left);
    assert forall|k: int| 0 <= k < al.len() implies al[k] != '|' by {
        assert(al[k] == left[crate::text::ink_start(left) + k]);
        assert(al[k] == s[crate::text::ink_start(left) + k]);
    }
    let j = sep_from(s, i, i + 1);
    lemma_sep_from(s, i, i + 1);
    assert(sep_ok(s, i, j));
    crate::text::lemma_trimmed_shape(s.subrange(i + 1, j));
}

/// Round-trip fidelity: serializing a well-formed author value in the
/// storage encoding and parsing the result yields the value back, for
/// every well-formed value, names containing pipes included.
pub proof fn lemma_storage_round_trip(a: AuthorView)
    requires
        a.wf(),
    ensures
        spec_parse(storage_text(a)) == Some(a),
{
    reveal_strlit(" | ");
    let s = storage_text(a);
    let la = a.alias.len() as int;
    let ln = a.name.len() as int;
    let le = a.email.len() as int;
    let i = la + 1;
    let j = la + 4 + ln;
    assert(" | "@.len() == 3);
    assert(" | "@[0] == ' ' && " | "@[1] == '|' && " | "@[2] == ' ');
    assert(s.len() == la + ln + le + 6);
    assert(forall|k: int| 0 <= k < la ==> s[k] == a.alias[k]);
    assert(s[la] == ' ' && s[la + 1] == '|' && s[la + 2] == ' ');
    assert(forall|k: int| 0 <= k < ln ==> s[la + 3 + k] == a.name[k]);
    assert(s[la + 3 + ln] == ' ' && s[la + 4 + ln] == '|' && s[la + 5 + ln] == ' ');
    assert(forall|k: int| 0 <= k < le ==> s[la + 6 + ln + k] == a.email[k]);

    // The first pipe is the one that closes the alias.
    lemma_pipe_from(s, 0);
    assert forall|k: int| 0 <= k < i implies s[k] != '|' by {
        if k < la {
            assert(s[k] == a.alias[k]);
        }
    }
    assert(pipe_from(s, 0) == i);

    // The first segment trims down to the alias.
    let left = s.subrange(0, i);
    assert(left =~= Seq::<char>::empty() + a.alias + seq![' ']);
    crate::text::lemma_trim_padded(Seq::<char>::empty(), a.alias, seq![' ']);
    assert(trimmed(left) == a.alias);

    // The second serialized pipe is an acceptable second delimiter.
    let mid = s.subrange(i + 1, j);
    assert(mid =~= seq![' '] + a.name + seq![' ']);
    assert(mid[1] == a.name[0]);
    assert(has_ink(mid));
    let tail = s.subrange(j + 1, s.len() as int);
    assert(tail =~= seq![' '] + a.email + Seq::<char>::empty());
    crate::text::lemma_trim_padded(seq![' '], a.email, Seq::<char>::empty());
    assert(trimmed(tail) == a.email);
    assert(sep_ok(s, i, j));

    // No pipe inside the name can close it: the serialized delimiter's
    // blank would survive trimming in the remainder, which therefore is
    // not a token.
    assert forall|k: int| i + 1 <= k < j implies !sep_ok(s, i, k) by {
        if s[k] == '|' {
            let t = s.subrange(k + 1, s.len() as int);
            assert(t[j - (k + 1)] == s[j]);
            assert(t[j + 1 - (k + 1)] == s[j + 1]);
            assert(t[j + 2 - (k + 1)] == s[j + 2]);
            assert(s[j + 2] == a.email[0]);
            crate::text::lemma_blank_between_ink(t, j - (k + 1), j + 1 - (k + 1), j + 2 - (k + 1));
        }
    }
    lemma_sep_from(s, i, i + 1);
    assert(sep_from(s, i, i + 1) == j);

    // The middle segment trims down to the name.
    crate::text::lemma_trim_padded(seq![' '], a.name, seq![' ']);
    assert(trimmed(mid) == a.name);
}

} // verus!

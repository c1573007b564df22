//! Pure logic of the roster operations: parsing every stored value,
//! rendering the listing and attribution text, and choosing which roster
//! entries replace the active set.
//!
//! The store itself (an ordered, multi-valued, key-scoped string store) is
//! an external collaborator: callers enumerate its values, hand them here
//! as plain strings, and write back the lines these functions return.

use vstd::prelude::*;
use vstd::string::StringExecFns;

use crate::author::Author;
use crate::author::AuthorView;
use crate::author::ParseError;
use crate::author::display_text;
use crate::author::patch_text;
use crate::author::spec_parse;
use crate::author::storage_text;

verus! {

/// The character sequences of a sequence of strings.
pub open spec fn text_of(vals: Seq<String>) -> Seq<Seq<char>> {
    Seq::new(vals.len(), |k: int| vals[k]@)
}

/// Every value parses as a storage-encoded author.
pub open spec fn parses(vals: Seq<Seq<char>>) -> bool {
    forall|k: int| 0 <= k < vals.len() ==> spec_parse(vals[k]) is Some
}

/// The author values the stored strings parse to, position by position.
pub open spec fn parsed(vals: Seq<Seq<char>>) -> Seq<AuthorView> {
    Seq::new(vals.len(), |k: int| spec_parse(vals[k]).unwrap())
}

/// The alias stands somewhere in the caller-supplied list.
pub open spec fn alias_listed(aliases: Seq<Seq<char>>, alias: Seq<char>) -> bool {
    exists|k: int| 0 <= k < aliases.len() && aliases[k] == alias
}

/// The roster entries whose alias stands in the list, kept in roster
/// order: the order of the list plays no part.
pub open spec fn selection(authors: Seq<AuthorView>, aliases: Seq<Seq<char>>) -> Seq<AuthorView>
    decreases authors.len(),
{
    if authors.len() == 0 {
        Seq::empty()
    } else {
        let rest = selection(authors.drop_last(), aliases);
        if alias_listed(aliases, authors.last().alias) {
            rest.push(authors.last())
        } else {
            rest
        }
    }
}

/// Each line is the storage encoding of the author at its position.
pub open spec fn lines_match(lines: Seq<String>, sel: Seq<AuthorView>) -> bool {
    lines.len() == sel.len() && forall|k: int|
        0 <= k < sel.len() ==> lines[k]@ == storage_text(sel[k])
}

/// The listing text: one `* [alias] Name <email>` line per author.
pub open spec fn display_lines(authors: Seq<AuthorView>) -> Seq<char>
    decreases authors.len(),
{
    if authors.len() == 0 {
        Seq::empty()
    } else {
        display_lines(authors.drop_last()) + "* "@ + display_text(authors.last()) + "\n"@
    }
}

/// The attribution text: one labelled `Name <email>` trailer per author.
pub open spec fn patch_lines(authors: Seq<AuthorView>) -> Seq<char>
    decreases authors.len(),
{
    if authors.len() == 0 {
        Seq::empty()
    } else {
        patch_lines(authors.drop_last()) + "Co-authored-by: "@ + patch_text(authors.last())
            + "\n"@
    }
}

/// Parses every stored value, in store order. Fails with the parse error
/// exactly when some value does not match the storage encoding; no value
/// is skipped.
pub fn parse_all(values: &Vec<String>) -> (r: Result<Vec<Author>, ParseError>)
    ensures
        match r {
            Ok(authors) => {
                &&& parses(text_of(values@))
                &&& authors@.len() == values@.len()
                &&& forall|k: int|
                    0 <= k < values@.len() ==> authors@[k]@ == parsed(text_of(values@))[k]
            },
            Err(_) => !parses(text_of(values@)),
        },
{
    let mut authors: Vec<Author> = Vec::new();
    let mut idx: usize = 0;
    while idx < values.len()
        invariant
            idx <= values@.len(),
            authors@.len() == idx,
            forall|k: int| 0 <= k < idx ==> spec_parse(values@[k]@) is Some,
            forall|k: int| 0 <= k < idx ==> authors@[k]@ == spec_parse(values@[k]@).unwrap(),
        decreases values@.len() - idx,
    {
        match Author::from_str(values[idx].as_str()) {
            Ok(a) => {
                authors.push(a);
            },
            Err(e) => {
                proof {
                    assert(spec_parse(text_of(values@)[idx as int]) is None);
                }
                return Err(e);
            },
        }
        idx = idx + 1;
    }
    Ok(authors)
}

/// Whether the alias stands in the list, decided by string comparison.
fn alias_matches(aliases: &Vec<String>, alias: &String) -> (b: bool)
    ensures
        b == alias_listed(text_of(aliases@), alias@),
{
    let mut k: usize = 0;
    while k < aliases.len()
        invariant
            k <= aliases@.len(),
            forall|m: int| 0 <= m < k ==> aliases@[m]@ != alias@,
        decreases aliases@.len() - k,
    {
        if aliases[k].eq(alias) {
            assert(text_of(aliases@)[k as int] == alias@);
            return true;
        }
        k = k + 1;
    }
    false
}

/// The `set` decision: parse the whole roster, keep the entries whose
/// alias stands in the list, in roster order, and re-encode them.
///
/// `Ok(None)` means no entry matched: the caller must leave the active
/// set untouched, the deliberate guard against wiping it on a mistyped
/// alias list. `Ok(Some(lines))` is non-empty and replaces the active set
/// wholesale: clear the key, then append the lines in order.
pub fn select_active(roster_values: &Vec<String>, aliases: &Vec<String>) -> (r: Result<
    Option<Vec<String>>,
    ParseError,
>)
    ensures
        match r {
            Ok(plan) => {
                let sel = selection(parsed(text_of(roster_values@)), text_of(aliases@));
                &&& parses(text_of(roster_values@))
                &&& match plan {
                    Some(lines) => sel.len() > 0 && lines_match(lines@, sel),
                    None => sel.len() == 0,
                }
            },
            Err(_) => !parses(text_of(roster_values@)),
        },
{
    let authors = match parse_all(roster_values) {
        Ok(a) => a,
        Err(e) => {
            return Err(e);
        },
    };
    let ghost p = parsed(text_of(roster_values@));
    let ghost al = text_of(aliases@);
    let mut lines: Vec<String> = Vec::new();
    let mut idx: usize = 0;
    while idx < authors.len()
        invariant
            idx <= authors@.len(),
            authors@.len() == roster_values@.len(),
            parses(text_of(roster_values@)),
            p == parsed(text_of(roster_values@)),
            al == text_of(aliases@),
            forall|k: int| 0 <= k < authors@.len() ==> authors@[k]@ == p[k],
            lines_match(lines@, selection(p.subrange(0, idx as int), al)),
        decreases authors@.len() - idx,
    {
        if alias_matches(aliases, &authors[idx].alias) {
            let line = authors[idx].serialize_storage();
            lines.push(line);
        }
        proof {
            let pre = p.subrange(0, idx as int);
            let pre1 = p.subrange(0, idx + 1);
            assert(pre1.drop_last() =~= pre);
            assert(pre1.last() == p[idx as int]);
        }
        idx = idx + 1;
    }
    proof {
        assert(p.subrange(0, p.len() as int) =~= p);
    }
    if lines.len() == 0 {
        Ok(None)
    } else {
        Ok(Some(lines))
    }
}

/// Renders the listing block for a key's values: every value parsed, then
/// one display line per author, in store order. Fails, rendering nothing,
/// when some value does not parse.
pub fn render_display_lines(values: &Vec<String>) -> (r: Result<String, ParseError>)
    ensures
        match r {
            Ok(text) => parses(text_of(values@)) && text@ == display_lines(
                parsed(text_of(values@)),
            ),
            Err(_) => !parses(text_of(values@)),
        },
{
    let authors = match parse_all(values) {
        Ok(a) => a,
        Err(e) => {
            return Err(e);
        },
    };
    let ghost p = parsed(text_of(values@));
    let mut out = String::new();
    let mut idx: usize = 0;
    while idx < authors.len()
        invariant
            idx <= authors@.len(),
            authors@.len() == values@.len(),
            parses(text_of(values@)),
            p == parsed(text_of(values@)),
            forall|k: int| 0 <= k < authors@.len() ==> authors@[k]@ == p[k],
            out@ == display_lines(p.subrange(0, idx as int)),
        decreases authors@.len() - idx,
    {
        out.append("* ");
        let d = authors[idx].format_display();
        out.append(d.as_str());
        out.append("\n");
        proof {
            let pre = p.subrange(0, idx as int);
            let pre1 = p.subrange(0, idx + 1);
            assert(pre1.drop_last() =~= pre);
            assert(pre1.last() == p[idx as int]);
        }
        idx = idx + 1;
    }
    proof {
        assert(p.subrange(0, p.len() as int) =~= p);
    }
    Ok(out)
}

/// Renders the attribution block for the active set: every value parsed,
/// then one `Co-authored-by: Name <email>` line per author, in store
/// order. Fails, rendering nothing, when some value does not parse.
pub fn render_patch_lines(values: &Vec<String>) -> (r: Result<String, ParseError>)
    ensures
        match r {
            Ok(text) => parses(text_of(values@)) && text@ == patch_lines(
                parsed(text_of(values@)),
            ),
            Err(_) => !parses(text_of(values@)),
        },
{
    let authors = match parse_all(values) {
        Ok(a) => a,
        Err(e) => {
            return Err(e);
        },
    };
    let ghost p = parsed(text_of(values@));
    let mut out = String::new();
    let mut idx: usize = 0;
    while idx < authors.len()
        invariant
            idx <= authors@.len(),
            authors@.len() == values@.len(),
            parses(text_of(values@)),
            p == parsed(text_of(values@)),
            forall|k: int| 0 <= k < authors@.len() ==> authors@[k]@ == p[k],
            out@ == patch_lines(p.subrange(0, idx as int)),
        decreases authors@.len() - idx,
    {
        out.append("Co-authored-by: ");
        let d = authors[idx].format_attribution();
        out.append(d.as_str());
        out.append("\n");
        proof {
            let pre = p.subrange(0, idx as int);
            let pre1 = p.subrange(0, idx + 1);
            assert(pre1.drop_last() =~= pre);
            assert(pre1.last() == p[idx as int]);
        }
        idx = idx + 1;
    }
    proof {
        assert(p.subrange(0, p.len() as int) =~= p);
    }
    Ok(out)
}

/// When no roster entry's alias stands in the list, the selection is
/// empty: `select_active` then answers `None` and the active set is left
/// byte-identical to its prior contents.
pub proof fn lemma_unmatched_selection_empty(authors: Seq<AuthorView>, aliases: Seq<Seq<char>>)
    requires
        forall|k: int| 0 <= k < authors.len() ==> !alias_listed(aliases, authors[k].alias),
    ensures
        selection(authors, aliases).len() == 0,
    decreases authors.len(),
{
    if authors.len() > 0 {
        assert(!alias_listed(aliases, authors.last().alias));
        assert(forall|k: int|
            0 <= k < authors.drop_last().len() ==> authors.drop_last()[k] == authors[k]);
        lemma_unmatched_selection_empty(authors.drop_last(), aliases);
    }
}

/// The selection depends only on which aliases the list holds, never on
/// their order or multiplicity: two lists listing the same aliases choose
/// the same entries, in roster order both times.
pub proof fn lemma_selection_ignores_alias_order(
    authors: Seq<AuthorView>,
    aliases1: Seq<Seq<char>>,
    aliases2: Seq<Seq<char>>,
)
    requires
        forall|al: Seq<char>| alias_listed(aliases1, al) == alias_listed(aliases2, al),
    ensures
        selection(authors, aliases1) == selection(authors, aliases2),
    decreases authors.len(),
{
    if authors.len() > 0 {
        lemma_selection_ignores_alias_order(authors.drop_last(), aliases1, aliases2);
        assert(alias_listed(aliases1, authors.last().alias) == alias_listed(
            aliases2,
            authors.last().alias,
        ));
    }
}

} // verus!

//! How the command-line front end shows the suggestions of one target.
use vstd::prelude::*;
use vstd::string::StringExecFns;

use crate::cli::Flags;
use crate::rank::views;

verus! {

/// The exit status when suggestions are required and a target has none.
pub const EXIT_NO_SUGGESTION: i32 = 7;

/// The exit status on a usage error.
pub const EXIT_USAGE: i32 = 1;

/// The text of `s` with its special characters escaped as Rust escapes
/// them in `str::escape_default`.
pub uninterp spec fn escaped(s: Seq<char>) -> Seq<char>;

/// Relies on str::escape_default: the escaped text depends on the
/// characters of `s` alone.
#[verifier::external_body]
fn escape_default(s: &str) -> (r: String)
    ensures
        r@ == escaped(s@),
{
    s.escape_default().to_string()
}

/// `s` escaped, between double quotes.
pub open spec fn quoted(s: Seq<char>) -> Seq<char> {
    "\""@ + escaped(s) + "\""@
}

/// The items of `items` one after the other, with `sep` between each two.
pub open spec fn joined(items: Seq<Seq<char>>, sep: Seq<char>) -> Seq<char>
    decreases items.len(),
{
    if items.len() == 0 {
        Seq::empty()
    } else if items.len() == 1 {
        items[0]
    } else {
        joined(items.drop_last(), sep) + sep + items.last()
    }
}

/// The items as shown: quoted when `quote` holds, as they are otherwise.
pub open spec fn shown(items: Seq<Seq<char>>, quote: bool) -> Seq<Seq<char>> {
    if quote {
        items.map_values(|s: Seq<char>| quoted(s))
    } else {
        items
    }
}

/// What is shown for target `t` with suggestions `items`: in JSON, the
/// target as a key and the quoted suggestions as an array, separated by
/// commas; otherwise the suggestions separated by spaces, quoted on demand.
pub open spec fn entry(t: Seq<char>, items: Seq<Seq<char>>, flags: Flags) -> Seq<char> {
    if flags.json {
        "  "@ + quoted(t) + ":["@ + joined(shown(items, true), ","@) + "]"@
    } else {
        joined(shown(items, flags.quote_output), " "@)
    }
}

/// `s` escaped, between double quotes (see [`quoted`]).
pub fn quote(s: &str) -> (r: String)
    ensures
        r@ == quoted(s@),
{
    let mut r = String::from_str("\"");
    let e = escape_default(s);
    r.append(e.as_str());
    r.append("\"");
    r
}

/// The suggestions kept for display: only the first one when `single` is
/// set, all of them otherwise.
pub fn keep_for_display(ranking: Vec<String>, single: bool) -> (r: Vec<String>)
    ensures
        r@ == (if single && ranking@.len() > 1 {
            ranking@.take(1)
        } else {
            ranking@
        }),
{
    let mut r = ranking;
    if single && r.len() > 1 {
        r.truncate(1);
    }
    r
}

/// Whether showing `items` breaks the demand for at least one suggestion.
pub fn violates_requirement(flags: &Flags, items: &[String]) -> (r: bool)
    ensures
        r == (flags.require_suggestions && items@.len() == 0),
{
    flags.require_suggestions && items.len() == 0
}

/// The suggestions `items` joined by `sep`, each quoted when `quote` holds.
pub fn join_items(items: &[String], sep: &str, quote_each: bool) -> (r: String)
    ensures
        r@ == joined(shown(views(items@), quote_each), sep@),
{
    let ghost all = shown(views(items@), quote_each);
    let mut out = String::new();
    let mut i: usize = 0;
    while i < items.len()
        invariant
            i <= items@.len(),
            all == shown(views(items@), quote_each),
            all.len() == items@.len(),
            out@ == joined(all.take(i as int), sep@),
        decreases items@.len() - i,
    {
        let piece = if quote_each {
            quote(items[i].as_str())
        } else {
            items[i].clone()
        };
        assert(piece@ == all[i as int]);
        if i > 0 {
            out.append(sep);
        }
        out.append(piece.as_str());
        assert(all.take(i + 1).drop_last() =~= all.take(i as int));
        i = i + 1;
    }
    assert(all.take(i as int) =~= all);
    out
}

/// What is shown for target `target` with suggestions `items` (see [`entry`]).
pub fn render_entry(target: &str, items: &[String], flags: &Flags) -> (r: String)
    ensures
        r@ == entry(target@, views(items@), *flags),
{
    if flags.json {
        let mut r = String::from_str("  ");
        let key = quote(target);
        r.append(key.as_str());
        r.append(":[");
        let list = join_items(items, ",", true);
        r.append(list.as_str());
        r.append("]");
        r
    } else {
        join_items(items, " ", flags.quote_output)
    }
}

} // verus!

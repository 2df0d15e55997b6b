//! What the texts of REST queries are for: which URLs are accepted, what joins a list, and what
//! is found in a content type.

use crate::rest::{
    action_after, endpoint, ends_in_slash, is_absolute, url_fault, Attempt, CallAction, CallOutcome,
    RestError, UriParts, UriView,
};
use crate::text::{has_part, texts, with_commas};
use vstd::prelude::*;

verus! {

/// A parsed URL is a base for queries exactly where its scheme is missing, `http` or `https`,
/// its host has at least one character, and it has no query. Each fault is told for what it
/// is: the scheme first, then the host, then the query.
pub proof fn lemma_accepted_urls(uri: UriView)
    ensures
        url_fault(uri) is None <==> (uri.scheme is None || uri.scheme->0 == "http"@
            || uri.scheme->0 == "https"@) && uri.host is Some && uri.host->0.len() > 0
            && uri.query is None,
        url_fault(uri) is Some && url_fault(uri)->0 is Scheme <==> uri.scheme is Some
            && uri.scheme->0 != "http"@ && uri.scheme->0 != "https"@,
        url_fault(uri) is Some && url_fault(uri)->0 is Scheme ==> url_fault(uri)->0->Scheme_0
            == uri.scheme->0,
        url_fault(uri) is Some && url_fault(uri)->0 is EmptyHost ==> uri.host is Some
            && uri.host->0.len() == 0,
        url_fault(uri) is Some && url_fault(uri)->0 is NoHost ==> uri.host is None,
        url_fault(uri) is Some && url_fault(uri)->0 is Query ==> uri.host is Some
            && uri.host->0.len() > 0 && uri.query is Some,
{
}

/// Only the scheme, the host being there and not empty, and the query being there decide
/// whether a URL is accepted: what the host, the path and the text say does not.
pub proof fn lemma_acceptance_ignores_names(one: UriView, other: UriView)
    requires
        one.scheme == other.scheme,
        one.host is Some && one.host->0.len() > 0,
        other.host is Some && other.host->0.len() > 0,
        one.query is Some <==> other.query is Some,
    ensures
        url_fault(one) == url_fault(other),
{
}

/// The view of a parsed URL holds what its parts hold.
pub proof fn lemma_uri_view(parts: UriParts)
    ensures
        parts@.text == parts.text@,
        parts@.path == parts.path@,
        parts@.scheme is Some <==> parts.scheme is Some,
        parts.scheme is Some ==> parts@.scheme->0 == parts.scheme->0@,
        parts@.host is Some <==> parts.host is Some,
        parts.host is Some ==> parts@.host->0 == parts.host->0@,
        parts@.query is Some <==> parts.query is Some,
        parts.query is Some ==> parts@.query->0 == parts.query->0@,
        parts@.path_and_query is Some <==> parts.path_and_query is Some,
        parts.path_and_query is Some ==> parts@.path_and_query->0 == parts.path_and_query->0@,
{
}

/// One text more stands behind a comma; a list of one text is that text, and no texts give no
/// text.
pub proof fn lemma_commas_push(items: Seq<Seq<char>>, item: Seq<char>)
    ensures
        with_commas(Seq::<Seq<char>>::empty()) == Seq::<char>::empty(),
        with_commas(seq![item]) == item,
        items.len() > 0 ==> with_commas(items.push(item)) == with_commas(items) + ","@ + item,
{
    reveal_strlit(",");
    assert(","@ =~= seq![',']);
    assert(items.push(item).drop_last() =~= items);
}

/// The list is that of the texts, in their order.
pub proof fn lemma_texts(items: Seq<String>)
    ensures
        texts(items).len() == items.len(),
        forall|i: int| 0 <= i < items.len() ==> #[trigger] texts(items)[i] == items[i]@,
{
}

/// How often a character stands in a text.
pub open spec fn occurrences(text: Seq<char>, c: char) -> nat
    decreases text.len(),
{
    if text.len() == 0 {
        0
    } else {
        occurrences(text.drop_last(), c) + (if text.last() == c {
            1nat
        } else {
            0
        })
    }
}

proof fn lemma_occurrences_concat(a: Seq<char>, b: Seq<char>, c: char)
    ensures
        occurrences(a + b, c) == occurrences(a, c) + occurrences(b, c),
    decreases b.len(),
{
    if b.len() == 0 {
        assert(a + b =~= a);
    } else {
        lemma_occurrences_concat(a, b.drop_last(), c);
        assert((a + b).drop_last() =~= a + b.drop_last());
    }
}

/// A joined list of texts without commas has one comma less than texts.
pub proof fn lemma_commas_count(items: Seq<Seq<char>>)
    requires
        items.len() > 0,
        forall|i: int| 0 <= i < items.len() ==> occurrences(#[trigger] items[i], ',') == 0,
    ensures
        occurrences(with_commas(items), ',') == items.len() - 1,
    decreases items.len(),
{
    let (rest, last) = (items.drop_last(), items.last());
    assert(occurrences(items[items.len() - 1], ',') == 0);
    if rest.len() == 0 {
        assert(items =~= seq![last]);
        lemma_commas_push(rest, last);
    } else {
        assert(items =~= rest.push(last));
        assert forall|i: int| 0 <= i < rest.len() implies occurrences(#[trigger] rest[i], ',') == 0 by {
            assert(rest[i] == items[i]);
        }
        lemma_commas_count(rest);
        lemma_commas_push(rest, last);
        reveal_strlit(",");
        assert(","@ =~= seq![',']);
        lemma_occurrences_concat(with_commas(rest), ","@, ',');
        lemma_occurrences_concat(with_commas(rest) + ","@, last, ',');
        reveal_with_fuel(occurrences, 3);
        assert(occurrences(seq![','], ',') == 1) by {
            assert(seq![','].drop_last() =~= Seq::<char>::empty());
        }
    }
}

/// The last comma of a joined list of texts without commas parts the last text from the
/// others, so the list can be read back.
pub proof fn lemma_commas_injective(one: Seq<Seq<char>>, other: Seq<Seq<char>>)
    requires
        one.len() > 0,
        other.len() > 0,
        forall|i: int| 0 <= i < one.len() ==> occurrences(#[trigger] one[i], ',') == 0,
        forall|i: int| 0 <= i < other.len() ==> occurrences(#[trigger] other[i], ',') == 0,
        with_commas(one) == with_commas(other),
    ensures
        one == other,
    decreases one.len(),
{
    lemma_commas_count(one);
    lemma_commas_count(other);
    let (r, x) = (one.drop_last(), one.last());
    let (s, y) = (other.drop_last(), other.last());
    assert(occurrences(one[one.len() - 1], ',') == 0);
    assert(occurrences(other[other.len() - 1], ',') == 0);
    lemma_commas_push(r, x);
    lemma_commas_push(s, y);
    if one.len() == 1 {
        assert(one =~= seq![x]);
        assert(other =~= seq![y]);
    } else {
        assert(one =~= r.push(x));
        assert(other =~= s.push(y));
        assert forall|i: int| 0 <= i < r.len() implies occurrences(#[trigger] r[i], ',') == 0 by {
            assert(r[i] == one[i]);
        }
        assert forall|i: int| 0 <= i < s.len() implies occurrences(#[trigger] s[i], ',') == 0 by {
            assert(s[i] == other[i]);
        }
        reveal_strlit(",");
        assert(","@ =~= seq![',']);
        lemma_last_part(with_commas(r), x, with_commas(s), y);
        lemma_commas_injective(r, s);
    }
}

/// Text in front of and behind the last comma is determined by the whole.
proof fn lemma_last_part(a: Seq<char>, x: Seq<char>, b: Seq<char>, y: Seq<char>)
    requires
        a + seq![','] + x == b + seq![','] + y,
        occurrences(x, ',') == 0,
        occurrences(y, ',') == 0,
    ensures
        a == b,
        x == y,
{
    let (s, t) = (a + seq![','] + x, b + seq![','] + y);
    assert(s.len() == a.len() + 1 + x.len() && t.len() == b.len() + 1 + y.len());
    assert(s == t);
    if x.len() < y.len() {
        // The comma in front of `x` would stand in `y`.
        let i = y.len() - x.len() - 1;
        assert(s[a.len() as int] == ',');
        assert(t[a.len() as int] == y[i]);
        lemma_occurs(y, i, ',');
    } else if y.len() < x.len() {
        let i = x.len() - y.len() - 1;
        assert(t[b.len() as int] == ',');
        assert(s[b.len() as int] == x[i]);
        lemma_occurs(x, i, ',');
    }
    assert(a.len() == b.len());
    assert forall|i: int| 0 <= i < a.len() implies a[i] == b[i] by {
        assert(s[i] == t[i]);
    }
    assert forall|i: int| 0 <= i < x.len() implies x[i] == y[i] by {
        assert(s[a.len() + 1 + i] == t[a.len() + 1 + i]);
    }
    assert(a =~= b);
    assert(x =~= y);
}

proof fn lemma_occurs(s: Seq<char>, i: int, c: char)
    requires
        0 <= i < s.len(),
        s[i] == c,
    ensures
        occurrences(s, c) > 0,
    decreases s.len(),
{
    if i < s.len() - 1 {
        lemma_occurs(s.drop_last(), i, c);
    }
}

/// A text holds another exactly where it is something, the other, and something.
pub proof fn lemma_has_part(text: Seq<char>, needle: Seq<char>)
    ensures
        has_part(text, needle) <==> exists|a: Seq<char>, b: Seq<char>|
            text == #[trigger] (a + needle + b),
{
    if has_part(text, needle) {
        let i = choose|i: int|
            0 <= i <= text.len() - needle.len() && #[trigger] text.subrange(
                i,
                i + needle.len() as int,
            ) == needle;
        let (a, b) = (text.take(i), text.skip(i + needle.len() as int));
        assert(text.subrange(i, i + needle.len() as int) == needle);
        assert(text =~= a + needle + b);
    }
    if exists|a: Seq<char>, b: Seq<char>| text == #[trigger] (a + needle + b) {
        let (a, b) = choose|a: Seq<char>, b: Seq<char>| text == #[trigger] (a + needle + b);
        let i = a.len() as int;
        assert(text.subrange(i, i + needle.len() as int) =~= needle);
    }
}

/// An endpoint is the base, the network and the route, with one slash between any two; a slash
/// that the base's path already ends in is that one.
pub proof fn lemma_endpoint_parts(base: UriView, network: Seq<char>, route: Seq<char>)
    ensures
        base.path.len() > 0 && base.path.last() == '/' ==> endpoint(base, network, route)
            == base.text + network + "/"@ + route,
        base.path.len() == 0 || base.path.last() != '/' ==> endpoint(base, network, route)
            == base.text + "/"@ + network + "/"@ + route,
        is_absolute(route) <==> route.len() > 0 && route[0] == '/',
        ends_in_slash(route) <==> route.len() > 0 && route.last() == '/',
{
    reveal_strlit("/");
    assert("/"@ =~= seq!['/']);
}

/// What follows an attempt: a lost first request is asked again, without a bound where there
/// was none; anything else is taken as it came.
pub proof fn lemma_attempts(
    attempt: Attempt,
    outcome: CallOutcome,
    total: Option<u128>,
    elapsed: u128,
)
    ensures
        action_after(attempt, outcome, total, elapsed) is AskAgain <==> attempt is First
            && outcome is Lost,
        attempt is First && outcome is Lost && total is None ==> action_after(
            attempt,
            outcome,
            total,
            elapsed,
        ) == CallAction::AskAgain(None),
{
}

/// The messages of a REST error are the type and the top-level message, and then the chain from
/// its end.
pub proof fn lemma_error_messages(error: RestError)
    ensures
        error.messages().len() == error.chain@.len() + 1,
        error.messages()[0] == error.error_type@ + ": "@ + error.message@,
        forall|i: int|
            0 <= i < error.chain@.len() ==> #[trigger] error.messages()[i + 1]
                == error.chain@[error.chain@.len() - 1 - i]@,
{
}

} // verus!

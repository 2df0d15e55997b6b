//! Small operations on text.

use vstd::prelude::*;
use vstd::string::*;

verus! {

/// `needle` stands somewhere in `text`.
pub open spec fn has_part(text: Seq<char>, needle: Seq<char>) -> bool {
    exists|i: int|
        0 <= i <= text.len() - needle.len() && #[trigger] text.subrange(
            i,
            i + needle.len() as int,
        ) == needle
}

/// Whether `needle` stands somewhere in `text`.
pub fn contains(text: &str, needle: &str) -> (found: bool)
    ensures
        found == has_part(text@, needle@),
{
    let n: usize = text.unicode_len();
    let m: usize = needle.unicode_len();
    if m > n {
        return false;
    }
    let mut i: usize = 0;
    while i <= n - m
        invariant
            n == text@.len(),
            m == needle@.len(),
            m <= n,
            i <= n - m + 1,
            forall|k: int| 0 <= k < i ==> #[trigger] text@.subrange(k, k + m) != needle@,
        decreases n - m + 1 - i,
    {
        let mut j: usize = 0;
        while j < m && text.get_char(i + j) == needle.get_char(j)
            invariant
                n == text@.len(),
                m == needle@.len(),
                m <= n,
                i <= n - m,
                j <= m,
                forall|k: int| 0 <= k < j ==> #[trigger] text@[i + k] == needle@[k],
            decreases m - j,
        {
            j += 1;
        }
        if j == m {
            proof {
                let part = text@.subrange(i as int, i + m);
                assert forall|k: int| 0 <= k < m implies part[k] == needle@[k] by {
                    assert(text@[i + k] == needle@[k]);
                }
                assert(part =~= needle@);
            }
            return true;
        }
        proof {
            let part = text@.subrange(i as int, i + m);
            assert(part[j as int] != needle@[j as int]);
        }
        if i == n - m {
            return false;
        }
        i += 1;
    }
    false
}

/// Whether `text` begins with `c`.
pub fn starts_with(text: &str, c: char) -> (starts: bool)
    ensures
        starts == (text@.len() > 0 && text@[0] == c),
{
    text.unicode_len() > 0 && text.get_char(0) == c
}

/// Whether `text` ends with `c`.
pub fn ends_with(text: &str, c: char) -> (ends: bool)
    ensures
        ends == (text@.len() > 0 && text@.last() == c),
{
    let n: usize = text.unicode_len();
    n > 0 && text.get_char(n - 1) == c
}

/// Two pieces of text, one behind the other.
pub fn join2(a: &str, b: &str) -> (out: String)
    ensures
        out@ == a@ + b@,
{
    let mut out: String = String::new();
    out.append(a);
    out.append(b);
    assert(out@ =~= a@ + b@);
    out
}

/// The views of a list of texts.
pub open spec fn texts(items: Seq<String>) -> Seq<Seq<char>> {
    items.map_values(|s: String| s@)
}

/// The texts of a list, with a comma between any two.
pub open spec fn with_commas(items: Seq<Seq<char>>) -> Seq<char>
    decreases items.len(),
{
    if items.len() == 0 {
        Seq::empty()
    } else if items.len() == 1 {
        items[0]
    } else {
        with_commas(items.drop_last()) + seq![','] + items.last()
    }
}

/// Joins the texts of a list, with a comma between any two.
pub fn join_with_commas(items: &[String]) -> (out: String)
    ensures
        out@ == with_commas(texts(items@)),
{
    let mut out: String = String::new();
    let mut i: usize = 0;
    while i < items.len()
        invariant
            i <= items@.len(),
            out@ == with_commas(texts(items@).take(i as int)),
        decreases items@.len() - i,
    {
        proof {
            reveal_strlit(",");
            let done = texts(items@).take(i + 1);
            assert(done.drop_last() =~= texts(items@).take(i as int));
            assert(","@ =~= seq![',']);
        }
        if i > 0 {
            out.append(",");
        }
        out.append(items[i].as_str());
        proof {
            let done = texts(items@).take(i + 1);
            if i == 0 {
                assert(out@ =~= done[0]);
            }
        }
        i += 1;
    }
    assert(texts(items@).take(i as int) =~= texts(items@));
    out
}

} // verus!

//! Searching rows by text.
use crate::text::{contains_text, has_text, lowercased, to_lowercase, trim, trimmed};
use vstd::prelude::*;

verus! {

/// The texts of rows.
pub open spec fn row_texts(rows: Seq<Vec<String>>) -> Seq<Seq<Seq<char>>> {
    rows.map_values(|row: Vec<String>| crate::text::texts(row@))
}

/// Whether one of the texts of a row holds the needle.
pub open spec fn row_matches(row: Seq<Seq<char>>, needle: Seq<char>) -> bool {
    exists|k: int| 0 <= k < row.len() && has_text(#[trigger] row[k], needle)
}

/// The positions of the first `n` rows that match, in order.
pub open spec fn matching_upto(rows: Seq<Seq<Seq<char>>>, needle: Seq<char>, n: nat) -> Seq<usize>
    decreases n,
{
    if n == 0 {
        seq![]
    } else {
        let before = matching_upto(rows, needle, (n - 1) as nat);
        if row_matches(rows[n - 1], needle) {
            before.push((n - 1) as usize)
        } else {
            before
        }
    }
}

/// The positions of the rows that match, in order.
pub open spec fn matching(rows: Seq<Seq<Seq<char>>>, needle: Seq<char>) -> Seq<usize> {
    matching_upto(rows, needle, rows.len())
}

proof fn lemma_matching(rows: Seq<Seq<Seq<char>>>, needle: Seq<char>, n: nat)
    requires
        n <= rows.len() <= usize::MAX,
    ensures
        ({
            let found = matching_upto(rows, needle, n);
            &&& found.len() <= n
            &&& forall|i: int|
                0 <= i < found.len() ==> (#[trigger] found[i]) < n && row_matches(
                    rows[found[i] as int],
                    needle,
                )
            &&& forall|i: int, j: int|
                0 <= i < j < found.len() ==> (#[trigger] found[i]) < (#[trigger] found[j])
            &&& forall|k: int|
                0 <= k < n && row_matches(#[trigger] rows[k], needle) ==> found.contains(k as usize)
        }),
    decreases n,
{
    if n > 0 {
        lemma_matching(rows, needle, (n - 1) as nat);
        let before = matching_upto(rows, needle, (n - 1) as nat);
        let found = matching_upto(rows, needle, n);
        assert forall|k: int| 0 <= k < n && row_matches(#[trigger] rows[k], needle) implies found.contains(
        k as usize) by {
            if k < n - 1 {
                let i = choose|i: int| 0 <= i < before.len() && before[i] == k as usize;
                assert(found[i] == k as usize);
            } else {
                assert(found[found.len() - 1] == k as usize);
            }
        }
        assert forall|i: int| 0 <= i < found.len() implies (#[trigger] found[i]) < n && row_matches(
            rows[found[i] as int],
            needle,
        ) by {
            if i < before.len() {
                assert(found[i] == before[i]);
            }
        }
        assert forall|i: int, j: int| 0 <= i < j < found.len() implies (#[trigger] found[i]) < (
        #[trigger] found[j]) by {
            assert(found[i] == before[i]);
            if j < before.len() {
                assert(found[j] == before[j]);
            }
        }
    }
}

/// A search finds exactly the rows that match, each once and in their order.
pub proof fn search_finds_exactly_the_matches(rows: Seq<Seq<Seq<char>>>, needle: Seq<char>)
    requires
        rows.len() <= usize::MAX,
    ensures
        ({
            let found = matching(rows, needle);
            &&& found.len() <= rows.len()
            &&& forall|i: int|
                0 <= i < found.len() ==> (#[trigger] found[i]) < rows.len() && row_matches(
                    rows[found[i] as int],
                    needle,
                )
            &&& forall|i: int, j: int|
                0 <= i < j < found.len() ==> (#[trigger] found[i]) < (#[trigger] found[j])
            &&& forall|k: int|
                0 <= k < rows.len() && row_matches(#[trigger] rows[k], needle) ==> found.contains(
                    k as usize,
                )
        }),
{
    lemma_matching(rows, needle, rows.len());
}

/// An empty needle is found in every row that has a text.
pub proof fn empty_search_finds_every_row(rows: Seq<Seq<Seq<char>>>, n: nat)
    requires
        n <= rows.len() <= usize::MAX,
        forall|i: int| 0 <= i < rows.len() ==> (#[trigger] rows[i]).len() > 0,
    ensures
        matching_upto(rows, seq![], n) == Seq::new(n, |i: int| i as usize),
    decreases n,
{
    if n > 0 {
        empty_search_finds_every_row(rows, (n - 1) as nat);
        let row = rows[n - 1];
        let none = Seq::<char>::empty();
        assert(row[0].subrange(0int, 0int + none.len()) =~= none);
        assert(has_text(row[0], Seq::<char>::empty()));
        assert(row_matches(row, Seq::<char>::empty()));
        assert(matching_upto(rows, seq![], n) =~= Seq::new(n, |i: int| i as usize));
    } else {
        assert(matching_upto(rows, seq![], n) =~= Seq::new(n, |i: int| i as usize));
    }
}

fn row_holds(row: &Vec<String>, needle: &str) -> (r: bool)
    ensures
        r == row_matches(crate::text::texts(row@), needle@),
{
    let mut k: usize = 0;
    while k < row.len()
        invariant
            k <= row@.len(),
            forall|i: int|
                0 <= i < k ==> !has_text(#[trigger] crate::text::texts(row@)[i], needle@),
        decreases row@.len() - k,
    {
        assert(crate::text::texts(row@)[k as int] == row@[k as int]@);
        if contains_text(row[k].as_str(), needle) {
            return true;
        }
        k += 1;
    }
    false
}

/// The positions of the rows that hold the needle.
pub fn matching_rows(rows: &Vec<Vec<String>>, needle: &str) -> (r: Vec<usize>)
    ensures
        r@ == matching(row_texts(rows@), needle@),
        forall|i: int| 0 <= i < r@.len() ==> (#[trigger] r@[i]) < rows@.len(),
{
    let mut found: Vec<usize> = Vec::new();
    let mut i: usize = 0;
    while i < rows.len()
        invariant
            i <= rows@.len(),
            found@ == matching_upto(row_texts(rows@), needle@, i as nat),
        decreases rows@.len() - i,
    {
        assert(row_texts(rows@)[i as int] == crate::text::texts(rows@[i as int]@));
        if row_holds(&rows[i], needle) {
            found.push(i);
        }
        i += 1;
    }
    proof {
        search_finds_exactly_the_matches(row_texts(rows@), needle@);
    }
    found
}

/// What is looked for when a query is typed.
pub open spec fn query_needle(query: Seq<char>) -> Seq<char> {
    lowercased(trimmed(query))
}

pub fn needle_of(query: &str) -> (r: String)
    ensures
        r@ == query_needle(query@),
        r@ == lowercased(trimmed(query@)),
{
    to_lowercase(trim(query).as_str())
}

/// A row with one text.
pub fn one_text_row(text: &str) -> (r: Vec<String>)
    ensures
        crate::text::texts(r@) == seq![lowercased(text@)],
{
    let mut row: Vec<String> = Vec::new();
    row.push(to_lowercase(text));
    assert(crate::text::texts(row@) =~= seq![lowercased(text@)]);
    row
}

/// A search finds a row exactly where one of its texts holds the whole query,
/// without the white space around it and in lower case.
pub proof fn searches_look_for_the_whole_query(
    rows: Seq<Seq<Seq<char>>>,
    query: Seq<char>,
    k: int,
)
    requires
        rows.len() <= usize::MAX,
        0 <= k < rows.len(),
    ensures
        matching(rows, query_needle(query)).contains(k as usize) <==> exists|t: int, at: int|
            0 <= t < rows[k].len() && 0 <= at <= rows[k][t].len() - lowercased(trimmed(query)).len()
                && #[trigger] rows[k][t].subrange(at, at + lowercased(trimmed(query)).len())
                == lowercased(trimmed(query)),
{
    let needle = lowercased(trimmed(query));
    let found = matching(rows, query_needle(query));
    search_finds_exactly_the_matches(rows, query_needle(query));
    if found.contains(k as usize) {
        let i = choose|i: int| 0 <= i < found.len() && found[i] == k as usize;
        assert(row_matches(rows[found[i] as int], needle));
        let t = choose|t: int| 0 <= t < rows[k].len() && has_text(#[trigger] rows[k][t], needle);
        let at = choose|at: int|
            0 <= at <= rows[k][t].len() - needle.len() && #[trigger] rows[k][t].subrange(
                at,
                at + needle.len(),
            ) == needle;
        assert(rows[k][t].subrange(at, at + needle.len()) == needle);
    }
    if exists|t: int, at: int|
        0 <= t < rows[k].len() && 0 <= at <= rows[k][t].len() - needle.len()
            && #[trigger] rows[k][t].subrange(at, at + needle.len()) == needle {
        let (t, at) = choose|t: int, at: int|
            0 <= t < rows[k].len() && 0 <= at <= rows[k][t].len() - needle.len()
                && #[trigger] rows[k][t].subrange(at, at + needle.len()) == needle;
        assert(has_text(rows[k][t], needle));
        assert(row_matches(rows[k], needle));
    }
}

} // verus!

use vstd::prelude::*;
use vstd::string::StringSliceAdditionalSpecFns;
use vstd::utf8::*;

use crate::folding::{
    ascii_lowered, folded, is_ascii_bytes, lemma_ascii_bytes_chars, to_lowercase,
};
use crate::lines::{lines_of, next_line};
use crate::matching::{contains, occurs_at, occurs_in};

verus! {

broadcast use vstd::string::group_string_axioms;

/// The UTF-8 bytes of each line view, in order.
pub open spec fn bytes_of<'a>(lines: Seq<&'a str>) -> Seq<Seq<u8>> {
    lines.map_values(|l: &'a str| l.spec_bytes())
}

/// A line is kept when it holds the query exactly.
pub open spec fn has_query(query: Seq<u8>) -> spec_fn(Seq<u8>) -> bool {
    |line: Seq<u8>| occurs_in(line, query)
}

/// A line is kept when its lower-case form holds the query's lower-case form.
pub open spec fn has_folded_query(query: Seq<u8>) -> spec_fn(Seq<u8>) -> bool {
    |line: Seq<u8>| occurs_in(folded(line), folded(query))
}

/// The lines of `contents` that hold `query` exactly, in their order.
pub open spec fn matching_lines(query: Seq<u8>, contents: Seq<u8>) -> Seq<Seq<u8>> {
    lines_of(contents).filter(has_query(query))
}

/// The lines of `contents` that hold `query` when both are lowered, in their
/// order.
pub open spec fn folded_matching_lines(query: Seq<u8>, contents: Seq<u8>) -> Seq<Seq<u8>> {
    lines_of(contents).filter(has_folded_query(query))
}

/// Every line of `lines` that holds `query` exactly is pure ASCII.
pub open spec fn ascii_where_matching(query: Seq<u8>, lines: Seq<Seq<u8>>) -> bool {
    forall|i: int| 0 <= i < lines.len() && occurs_in(lines[i], query) ==> is_ascii_bytes(lines[i])
}

/// Filtering a sequence that grew by one element.
pub proof fn lemma_filter_push<A>(s: Seq<A>, x: A, p: spec_fn(A) -> bool)
    ensures
        s.push(x).filter(p) == (if p(x) {
            s.filter(p).push(x)
        } else {
            s.filter(p)
        }),
{
    reveal(Seq::filter);
    assert(s.push(x).drop_last() =~= s);
}

/// Nothing is left of an empty sequence after filtering.
pub proof fn lemma_filter_empty<A>(p: spec_fn(A) -> bool)
    ensures
        Seq::<A>::empty().filter(p) == Seq::<A>::empty(),
{
    reveal(Seq::filter);
}

proof fn lemma_bytes_of_push<'a>(lines: Seq<&'a str>, line: &'a str)
    ensures
        bytes_of(lines.push(line)) == bytes_of(lines).push(line.spec_bytes()),
{
    assert(bytes_of(lines.push(line)) =~= bytes_of(lines).push(line.spec_bytes()));
}

/// Lowering ASCII letters on both sides keeps an occurrence where it was.
pub proof fn lemma_lowered_occurs(hay: Seq<u8>, needle: Seq<u8>, k: int)
    requires
        occurs_at(hay, needle, k),
    ensures
        occurs_at(ascii_lowered(hay), ascii_lowered(needle), k),
{
    let lh = ascii_lowered(hay);
    let ln = ascii_lowered(needle);
    assert forall|t: int| 0 <= t < ln.len() implies lh.subrange(k, k + ln.len())[t] == ln[t] by {
        assert(hay.subrange(k, k + needle.len())[t] == needle[t]);
    }
    assert(lh.subrange(k, k + ln.len()) =~= ln);
}

/// The lines of `contents` that contain `query` as an exact, contiguous run
/// of bytes, in the order in which they stand. Each line is a view into
/// `contents`; line feeds end lines, and a carriage return just before a line
/// feed is not part of its line.
pub fn search<'a>(query: &str, contents: &'a str) -> (r: Vec<&'a str>)
    ensures
        bytes_of(r@) == matching_lines(query.spec_bytes(), contents.spec_bytes()),
        query@.len() == 0 ==> bytes_of(r@) == lines_of(contents.spec_bytes()),
        contents@.len() == 0 ==> r@.len() == 0,
{
    let ghost qb = query.spec_bytes();
    let ghost cb = contents.spec_bytes();
    let mut results: Vec<&'a str> = Vec::new();
    let mut rest: &'a str = contents;
    let ghost mut seen: Seq<Seq<u8>> = Seq::empty();
    proof {
        lemma_filter_empty(has_query(qb));
        assert(bytes_of(results@) =~= Seq::<Seq<u8>>::empty());
    }
    while !rest.is_empty()
        invariant
            qb == query.spec_bytes(),
            cb == contents.spec_bytes(),
            lines_of(cb) == seen + lines_of(rest.spec_bytes()),
            bytes_of(results@) == seen.filter(has_query(qb)),
            qb.len() == 0 ==> bytes_of(results@) == seen,
        decreases rest.spec_bytes().len(),
    {
        let (line, tail) = next_line(rest);
        let ghost lb = line.spec_bytes();
        let ghost before = results@;
        proof {
            lemma_filter_push(seen, lb, has_query(qb));
            lemma_bytes_of_push(before, line);
            if qb.len() == 0 {
                assert(lb.subrange(0, 0) =~= qb);
                assert(occurs_at(lb, qb, 0));
            }
        }
        if contains(line, query) {
            results.push(line);
        }
        proof {
            assert(seen + (seq![lb] + lines_of(tail.spec_bytes())) =~= seen.push(lb) + lines_of(
                tail.spec_bytes(),
            ));
            seen = seen.push(lb);
        }
        rest = tail;
    }
    proof {
        assert(lines_of(rest.spec_bytes()) =~= Seq::<Seq<u8>>::empty());
        assert(seen + Seq::<Seq<u8>>::empty() =~= seen);
        if contents@.len() == 0 {
            assert(cb.len() == 0);
        }
    }
    results
}

/// The lines of `contents` whose lower-case form contains the lower-case form
/// of `query`, in the order in which they stand. Lowering is used only to
/// compare: each line is a view into `contents`, unchanged. Where the query
/// and every line that holds it exactly are ASCII, the lines that `search`
/// finds are kept here too, in the same order.
pub fn search_case_insensitive<'a>(query: &str, contents: &'a str) -> (r: Vec<&'a str>)
    ensures
        bytes_of(r@) == folded_matching_lines(query.spec_bytes(), contents.spec_bytes()),
        query@.len() == 0 ==> bytes_of(r@) == lines_of(contents.spec_bytes()),
        contents@.len() == 0 ==> r@.len() == 0,
        is_ascii_bytes(query.spec_bytes()) && ascii_where_matching(
            query.spec_bytes(),
            lines_of(contents.spec_bytes()),
        ) ==> bytes_of(r@).filter(has_query(query.spec_bytes())) == matching_lines(
            query.spec_bytes(),
            contents.spec_bytes(),
        ),
{
    broadcast use encode_utf8_decode_utf8;

    let ghost qb = query.spec_bytes();
    let ghost cb = contents.spec_bytes();
    let lowered_query = to_lowercase(query);
    let ghost fq = encode_utf8(lowered_query@);
    proof {
        assert(fq == folded(qb));
        if is_ascii_bytes(qb) {
            lemma_ascii_bytes_chars(query@);
        }
    }
    let mut results: Vec<&'a str> = Vec::new();
    let mut rest: &'a str = contents;
    let ghost mut seen: Seq<Seq<u8>> = Seq::empty();
    proof {
        lemma_filter_empty(has_query(qb));
        lemma_filter_empty(has_folded_query(qb));
        assert(bytes_of(results@) =~= Seq::<Seq<u8>>::empty());
    }
    while !rest.is_empty()
        invariant
            qb == query.spec_bytes(),
            cb == contents.spec_bytes(),
            fq == encode_utf8(lowered_query@),
            fq == folded(qb),
            is_ascii_bytes(qb) ==> fq == ascii_lowered(qb),
            query@.len() == 0 ==> fq.len() == 0,
            lines_of(cb) == seen + lines_of(rest.spec_bytes()),
            bytes_of(results@) == seen.filter(has_folded_query(qb)),
            query@.len() == 0 ==> bytes_of(results@) == seen,
            is_ascii_bytes(qb) && ascii_where_matching(qb, seen) ==> bytes_of(results@).filter(
                has_query(qb),
            ) == seen.filter(has_query(qb)),
        decreases rest.spec_bytes().len(),
    {
        let (line, tail) = next_line(rest);
        let ghost lb = line.spec_bytes();
        let ghost before = results@;
        let lowered_line = to_lowercase(line);
        let found = contains(lowered_line.as_str(), lowered_query.as_str());
        proof {
            encode_utf8_decode_utf8(line@);
            assert(encode_utf8(lowered_line@) == folded(lb));
            assert(found == has_folded_query(qb)(lb));
            lemma_filter_push(seen, lb, has_folded_query(qb));
            lemma_filter_push(seen, lb, has_query(qb));
            lemma_bytes_of_push(before, line);
            lemma_filter_push(bytes_of(before), lb, has_query(qb));
            if query@.len() == 0 {
                assert(folded(lb).subrange(0, 0) =~= folded(qb));
                assert(occurs_at(folded(lb), folded(qb), 0));
            }
            if is_ascii_bytes(qb) && ascii_where_matching(qb, seen.push(lb)) && occurs_in(lb, qb) {
                assert(seen.push(lb)[seen.len() as int] == lb);
                lemma_ascii_bytes_chars(line@);
                let k = choose|k: int| occurs_at(lb, qb, k);
                lemma_lowered_occurs(lb, qb, k);
                assert(found);
            }
            if ascii_where_matching(qb, seen.push(lb)) {
                assert forall|i: int|
                    0 <= i < seen.len() && occurs_in(seen[i], qb) implies is_ascii_bytes(
                    seen[i],
                ) by {
                    assert(seen.push(lb)[i] == seen[i]);
                }
            }
        }
        if found {
            results.push(line);
        }
        proof {
            assert(seen + (seq![lb] + lines_of(tail.spec_bytes())) =~= seen.push(lb) + lines_of(
                tail.spec_bytes(),
            ));
            seen = seen.push(lb);
        }
        rest = tail;
    }
    proof {
        assert(lines_of(rest.spec_bytes()) =~= Seq::<Seq<u8>>::empty());
        assert(seen + Seq::<Seq<u8>>::empty() =~= seen);
        if contents@.len() == 0 {
            assert(cb.len() == 0);
        }
    }
    results
}

/// Every line that `search` returns holds the query exactly, and every line
/// of the text that holds the query exactly is among those returned; they
/// keep the order of the text, as a filter of its lines.
pub proof fn lemma_search_selects_exactly(query: &str, contents: &str)
    ensures
        ({
            let found = matching_lines(query.spec_bytes(), contents.spec_bytes());
            let all = lines_of(contents.spec_bytes());
            &&& found == all.filter(has_query(query.spec_bytes()))
            &&& forall|i: int| 0 <= i < found.len() ==> occurs_in(found[i], query.spec_bytes())
            &&& forall|i: int|
                0 <= i < all.len() && occurs_in(all[i], query.spec_bytes()) ==> found.contains(
                    all[i],
                )
        }),
{
    broadcast use vstd::seq_lib::group_filter_ensures;

    let qb = query.spec_bytes();
    let found = matching_lines(qb, contents.spec_bytes());
    let all = lines_of(contents.spec_bytes());
    assert forall|i: int| 0 <= i < found.len() implies occurs_in(found[i], qb) by {
        assert(has_query(qb)(found[i]));
    }
    assert forall|i: int| 0 <= i < all.len() && occurs_in(all[i], qb) implies found.contains(
        all[i],
    ) by {
        assert(has_query(qb)(all[i]));
    }
}

/// Two searches with the same query and text give the same lines: what
/// either search function returns is fixed by its two inputs.
pub proof fn lemma_search_repeatable<'a>(
    query: &str,
    contents: &'a str,
    first: Seq<&'a str>,
    second: Seq<&'a str>,
)
    requires
        ({
            let qb = query.spec_bytes();
            let cb = contents.spec_bytes();
            ||| bytes_of(first) == matching_lines(qb, cb) && bytes_of(second) == matching_lines(
                qb,
                cb,
            )
            ||| bytes_of(first) == folded_matching_lines(qb, cb) && bytes_of(second)
                == folded_matching_lines(qb, cb)
        }),
    ensures
        first.len() == second.len(),
        forall|i: int| 0 <= i < first.len() ==> first[i]@ == second[i]@,
{
    assert(first.len() == bytes_of(first).len());
    assert(second.len() == bytes_of(second).len());
    assert forall|i: int| 0 <= i < first.len() implies first[i]@ == second[i]@ by {
        assert(bytes_of(first)[i] == bytes_of(second)[i]);
        encode_utf8_decode_utf8(first[i]@);
        encode_utf8_decode_utf8(second[i]@);
    }
}

} // verus!

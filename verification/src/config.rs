//! Dialect selection, and the grouping of a database's migration sources by
//! schema.
use vstd::prelude::*;
use crate::text::{chars_eq, str_to_chars};

verus! {

/// SQL dialect / database engine.
#[derive(Debug, Clone, Copy, PartialEq, Eq, Structural)]
pub enum Engine {
    Postgres,
    Mysql,
}

/// The distinct names among `names`, each once, in the order in which they
/// first occur.
pub open spec fn distinct_in_order(names: Seq<Seq<char>>) -> Seq<Seq<char>>
    decreases names.len(),
{
    if names.len() == 0 {
        seq![]
    } else {
        let rest = distinct_in_order(names.drop_last());
        if names.drop_last().contains(names.last()) {
            rest
        } else {
            rest.push(names.last())
        }
    }
}

/// How many times `name` occurs in `names`.
pub open spec fn occurrences(names: Seq<Seq<char>>, name: Seq<char>) -> nat
    decreases names.len(),
{
    if names.len() == 0 {
        0
    } else {
        occurrences(names.drop_last(), name) + if names.last() == name {
            1nat
        } else {
            0nat
        }
    }
}

/// Each distinct schema name with the number of sources that name it, in the
/// order in which the names first occur.
pub open spec fn schema_counts(names: Seq<Seq<char>>) -> Seq<(Seq<char>, nat)> {
    distinct_in_order(names).map_values(|n: Seq<char>| (n, occurrences(names, n)))
}

pub open spec fn counts_view(v: Seq<(String, usize)>) -> Seq<(Seq<char>, nat)> {
    v.map_values(|p: (String, usize)| (p.0@, p.1 as nat))
}

proof fn lemma_distinct_contains(names: Seq<Seq<char>>, y: Seq<char>)
    ensures
        distinct_in_order(names).contains(y) <==> names.contains(y),
    decreases names.len(),
{
    if names.len() > 0 {
        let init = names.drop_last();
        lemma_distinct_contains(init, y);
        assert(names =~= init.push(names.last()));
        let d = distinct_in_order(init);
        if !init.contains(names.last()) {
            assert(d.push(names.last()).contains(y) <==> (d.contains(y) || y == names.last())) by {
                if d.contains(y) {
                    let k = choose|k: int| 0 <= k < d.len() && d[k] == y;
                    assert(d.push(names.last())[k] == y);
                }
                if y == names.last() {
                    assert(d.push(names.last())[d.len() as int] == y);
                }
            }
        }
        assert(names.contains(y) <==> (init.contains(y) || y == names.last())) by {
            if init.contains(y) {
                let k = choose|k: int| 0 <= k < init.len() && init[k] == y;
                assert(names[k] == y);
            }
            if y == names.last() {
                assert(names[names.len() - 1] == y);
            }
        }
    }
}

proof fn lemma_distinct_unique(names: Seq<Seq<char>>)
    ensures
        forall|i: int, j: int|
            0 <= i < j < distinct_in_order(names).len() ==> distinct_in_order(names)[i]
                != distinct_in_order(names)[j],
    decreases names.len(),
{
    if names.len() > 0 {
        let init = names.drop_last();
        lemma_distinct_unique(init);
        lemma_distinct_contains(init, names.last());
    }
}

proof fn lemma_occurrences_absent(names: Seq<Seq<char>>, y: Seq<char>)
    requires
        !names.contains(y),
    ensures
        occurrences(names, y) == 0,
    decreases names.len(),
{
    if names.len() > 0 {
        let init = names.drop_last();
        if init.contains(y) {
            let k = choose|k: int| 0 <= k < init.len() && init[k] == y;
            assert(names[k] == y);
        }
        assert(names[names.len() - 1] == names.last());
        lemma_occurrences_absent(init, y);
    }
}

proof fn lemma_occurrences_bound(names: Seq<Seq<char>>, y: Seq<char>)
    ensures
        occurrences(names, y) <= names.len(),
    decreases names.len(),
{
    if names.len() > 0 {
        lemma_occurrences_bound(names.drop_last(), y);
    }
}

/// The sources of a database grouped by schema: given the schema name of
/// each source, each distinct schema with the number of its sources, in the
/// order in which the schemas first occur.
pub fn sources_by_schema(schemas: &Vec<String>) -> (r: Vec<(String, usize)>)
    ensures
        counts_view(r@) == schema_counts(schemas.deep_view()),
{
    let ghost names = schemas.deep_view();
    let mut out: Vec<(String, usize)> = Vec::new();
    let mut i: usize = 0;
    assert(names.take(0) =~= seq![]);
    assert(counts_view(out@) =~= schema_counts(names.take(0)));
    while i < schemas.len()
        invariant
            i <= schemas.len(),
            names == schemas.deep_view(),
            counts_view(out@) == schema_counts(names.take(i as int)),
        decreases schemas.len() - i,
    {
        let ghost prefix = names.take(i as int);
        let ghost next = names.take(i + 1);
        let ghost x = names[i as int];
        let ghost before = out@;
        assert(next.drop_last() =~= prefix);
        assert(next.last() == x);
        proof {
            lemma_distinct_unique(prefix);
            lemma_distinct_contains(prefix, x);
        }
        let name = str_to_chars(schemas[i].as_str());
        let mut k: usize = 0;
        let mut found = false;
        while k < out.len()
            invariant
                k <= out.len(),
                out@ == before,
                name@ == x,
                counts_view(before) == schema_counts(prefix),
                !found ==> forall|j: int| 0 <= j < k ==> before[j].0@ != x,
                found ==> k < out.len() && before[k as int].0@ == x,
            ensures
                out@ == before,
                !found ==> forall|j: int| 0 <= j < out.len() ==> before[j].0@ != x,
                found ==> k < out.len() && before[k as int].0@ == x,
            decreases out.len() - k,
        {
            let n = str_to_chars(out[k].0.as_str());
            if chars_eq(n.as_slice(), name.as_slice()) {
                found = true;
                break;
            }
            k += 1;
        }
        let ghost d = distinct_in_order(prefix);
        assert(counts_view(before).len() == d.len());
        if found {
            assert(counts_view(before)[k as int].0 == d[k as int]);
            assert(prefix.contains(x));
            assert(distinct_in_order(next) == d);
            proof {
                lemma_occurrences_bound(prefix, x);
            }
            assert(counts_view(before)[k as int].1 == occurrences(prefix, x));
            let old_count = out[k].1;
            let label = out[k].0.clone();
            out.set(k, (label, old_count + 1));
            assert forall|j: int| 0 <= j < d.len() implies #[trigger] counts_view(out@)[j]
                == schema_counts(next)[j] by {
                assert(counts_view(before)[j] == (d[j], occurrences(prefix, d[j])));
                if j != k {
                    assert(d[j] != d[k as int]);
                }
            }
            assert(counts_view(out@) =~= schema_counts(next));
        } else {
            assert forall|j: int| 0 <= j < d.len() implies d[j] != x by {
                assert(counts_view(before)[j].0 == d[j]);
                assert(before[j].0@ != x);
            }
            assert(!d.contains(x));
            assert(!prefix.contains(x));
            proof {
                lemma_occurrences_absent(prefix, x);
            }
            assert(distinct_in_order(next) == d.push(x));
            out.push((schemas[i].clone(), 1));
            assert forall|j: int| 0 <= j < d.len() implies #[trigger] counts_view(out@)[j]
                == schema_counts(next)[j] by {
                assert(counts_view(before)[j] == (d[j], occurrences(prefix, d[j])));
                assert(d[j] != x);
            }
            assert(counts_view(out@)[d.len() as int] == schema_counts(next)[d.len() as int]);
            assert(counts_view(out@) =~= schema_counts(next));
        }
        i += 1;
    }
    assert(names.take(schemas.len() as int) =~= names);
    out
}

} // verus!

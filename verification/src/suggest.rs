//! Suggestions for misspelt class and method names, drawn from the
//! documentation index.

use vstd::prelude::*;
use crate::docs::{DocsIndex, Method};
use crate::text::{chars_of, lowercase, lowercase_of, str_eq};

verus! {

/// The least of three numbers.
pub open spec fn min3(a: int, b: int, c: int) -> int {
    if a <= b && a <= c {
        a
    } else if b <= c {
        b
    } else {
        c
    }
}

/// The Levenshtein distance: the least number of insertions, deletions
/// and substitutions of single characters that turn `a` into `b`.
pub open spec fn levenshtein(a: Seq<char>, b: Seq<char>) -> int
    decreases a.len() + b.len(),
{
    if a.len() == 0 {
        b.len() as int
    } else if b.len() == 0 {
        a.len() as int
    } else {
        let cost: int = if a.last() == b.last() {
            0
        } else {
            1
        };
        min3(
            levenshtein(a.drop_last(), b) + 1,
            levenshtein(a, b.drop_last()) + 1,
            levenshtein(a.drop_last(), b.drop_last()) + cost,
        )
    }
}

/// The distance lies between zero and the greater of the two lengths.
pub proof fn lemma_levenshtein_bounds(a: Seq<char>, b: Seq<char>)
    ensures
        0 <= levenshtein(a, b),
        levenshtein(a, b) <= a.len() || levenshtein(a, b) <= b.len(),
    decreases a.len() + b.len(),
{
    if a.len() > 0 && b.len() > 0 {
        lemma_levenshtein_bounds(a.drop_last(), b);
        lemma_levenshtein_bounds(a, b.drop_last());
        lemma_levenshtein_bounds(a.drop_last(), b.drop_last());
    }
}

/// The Levenshtein distance between two character vectors.
pub fn distance(a: &Vec<char>, b: &Vec<char>) -> (r: usize)
    ensures
        r == levenshtein(a@, b@),
{
    let n: usize = a.len();
    let m: usize = b.len();
    proof {
        lemma_levenshtein_bounds(a@, b@);
    }
    if m == 0 {
        return n;
    }
    let mut row: Vec<u128> = Vec::new();
    let mut j: usize = 0;
    while j < m
        invariant
            j <= m,
            m == b.len(),
            row@.len() == j,
            forall|k: int| 0 <= k < j ==> #[trigger] row@[k] == k + 1,
        decreases m - j,
    {
        row.push((j as u128) + 1);
        j += 1;
    }
    assert forall|k: int| 0 <= k < m implies #[trigger] row@[k] == levenshtein(
        a@.take(0),
        b@.take(k + 1),
    ) by {
        assert(a@.take(0).len() == 0);
    }
    let mut i: usize = 0;
    while i < n
        invariant
            i <= n,
            n == a.len(),
            m == b.len(),
            m > 0,
            row@.len() == m,
            forall|k: int|
                0 <= k < m ==> #[trigger] row@[k] == levenshtein(a@.take(i as int), b@.take(k + 1)),
        decreases n - i,
    {
        let mut diag: u128 = i as u128;
        let mut left: u128 = (i as u128) + 1;
        let ghost upper = a@.take(i as int);
        let ghost lower = a@.take(i + 1);
        assert(lower.drop_last() == upper);
        assert(lower.last() == a@[i as int]);
        assert(b@.take(0).len() == 0);
        let mut j: usize = 0;
        while j < m
            invariant
                j <= m,
                i < n,
                n == a.len(),
                m == b.len(),
                row@.len() == m,
                upper == a@.take(i as int),
                lower == a@.take(i + 1),
                lower.drop_last() == upper,
                lower.last() == a@[i as int],
                lower.len() == i + 1,
                diag == levenshtein(upper, b@.take(j as int)),
                left == levenshtein(lower, b@.take(j as int)),
                forall|k: int| 0 <= k < j ==> #[trigger] row@[k] == levenshtein(lower, b@.take(k + 1)),
                forall|k: int| j <= k < m ==> #[trigger] row@[k] == levenshtein(upper, b@.take(k + 1)),
            decreases m - j,
        {
            let up: u128 = row[j];
            let ghost short = b@.take(j as int);
            let ghost long = b@.take(j + 1);
            proof {
                assert(long.drop_last() == short);
                assert(long.last() == b@[j as int]);
                lemma_levenshtein_bounds(upper, long);
                lemma_levenshtein_bounds(lower, short);
                lemma_levenshtein_bounds(upper, short);
            }
            let cost: u128 = if a[i] == b[j] {
                0
            } else {
                1
            };
            let x: u128 = up + 1;
            let y: u128 = left + 1;
            let z: u128 = diag + cost;
            let val: u128 = if x <= y && x <= z {
                x
            } else if y <= z {
                y
            } else {
                z
            };
            assert(val == levenshtein(lower, long));
            diag = up;
            left = val;
            row.set(j, val);
            j += 1;
        }
        i += 1;
    }
    assert(a@.take(n as int) == a@);
    assert(b@.take(m - 1 + 1) == b@);
    let last: u128 = row[m - 1];
    last as usize
}

/// Calculate the edit distance between two strings (Levenshtein distance).
pub fn edit_distance(s1: &str, s2: &str) -> (r: usize)
    ensures
        r == levenshtein(s1@, s2@),
{
    let a = chars_of(s1);
    let b = chars_of(s2);
    distance(&a, &b)
}

/// `name` differs from `query` in the case of its letters only.
pub open spec fn is_case_match(name: Seq<char>, query: Seq<char>) -> bool {
    lowercase_of(name) == lowercase_of(query) && name != query
}

/// The distance between the lowercase forms of `query` and `name`.
pub open spec fn distance_to(name: Seq<char>, query: Seq<char>) -> int {
    levenshtein(lowercase_of(query), lowercase_of(name))
}

/// The numbers below `n`, ascending.
pub open spec fn upto(n: int) -> Seq<int> {
    Seq::new(n as nat, |i: int| i)
}

/// The positions of the methods that differ from `query` in case only.
pub open spec fn case_matches(methods: Seq<Method>, query: Seq<char>) -> Seq<int> {
    upto(methods.len() as int).filter(|i: int| is_case_match(methods[i].name@, query))
}

/// The positions of the methods at distance `d` from `query`.
pub open spec fn at_distance(methods: Seq<Method>, query: Seq<char>, d: int) -> Seq<int> {
    upto(methods.len() as int).filter(|i: int| distance_to(methods[i].name@, query) == d)
}

/// The positions of the methods within distance two of `query`, nearest
/// first, those at one distance in catalogue order.
pub open spec fn nearest(methods: Seq<Method>, query: Seq<char>) -> Seq<int> {
    at_distance(methods, query, 0) + at_distance(methods, query, 1) + at_distance(methods, query, 2)
}

/// The first `n` entries of `s`, or all of them where it has fewer.
pub open spec fn first_n<A>(s: Seq<A>, n: int) -> Seq<A> {
    if s.len() <= n {
        s
    } else {
        s.take(n)
    }
}

/// The methods to suggest for `query`: those that differ in case only;
/// where there are none, the five nearest within distance two.
pub open spec fn suggested_positions(methods: Seq<Method>, query: Seq<char>) -> Seq<int> {
    if case_matches(methods, query).len() > 0 {
        case_matches(methods, query)
    } else {
        first_n(nearest(methods, query), 5)
    }
}

/// The names of the methods at the given positions.
pub open spec fn names_at(methods: Seq<Method>, positions: Seq<int>) -> Seq<Seq<char>> {
    Seq::new(positions.len(), |k: int| methods[positions[k]].name@)
}

/// The name of `method` paired with each of its first `limit` signatures.
pub open spec fn signatures_of(method: Method, limit: int) -> Seq<(Seq<char>, Seq<char>)> {
    Seq::new(
        first_n(method.overloads@, limit).len(),
        |k: int| (method.name@, method.overloads@[k].signature@),
    )
}

/// The signatures of the methods at the first `k` of the given
/// positions, at most `limit` of each.
pub open spec fn signatures_upto(
    methods: Seq<Method>,
    positions: Seq<int>,
    limit: int,
    k: int,
) -> Seq<(Seq<char>, Seq<char>)>
    decreases k,
{
    if k <= 0 {
        Seq::empty()
    } else {
        signatures_upto(methods, positions, limit, k - 1) + signatures_of(
            methods[positions[k - 1]],
            limit,
        )
    }
}

/// What to suggest with signatures for `query`: every signature of the
/// methods that differ in case only; where there are none, two signatures
/// of each of the three nearest methods within distance two.
pub open spec fn suggested_signatures(methods: Seq<Method>, query: Seq<char>) -> Seq<
    (Seq<char>, Seq<char>),
> {
    let exact = case_matches(methods, query);
    if exact.len() > 0 {
        signatures_upto(methods, exact, usize::MAX as int, exact.len() as int)
    } else {
        let near = first_n(nearest(methods, query), 3);
        signatures_upto(methods, near, 2, near.len() as int)
    }
}

/// A list of positions as integers.
pub open spec fn position_views(v: Seq<usize>) -> Seq<int> {
    Seq::new(v.len(), |i: int| v[i] as int)
}

/// A list of pairs of strings as pairs of character sequences.
pub open spec fn pair_views(v: Seq<(String, String)>) -> Seq<(Seq<char>, Seq<char>)> {
    Seq::new(v.len(), |i: int| (v[i].0@, v[i].1@))
}

/// The positions of the methods that differ from `query` in case only.
pub fn find_case_matches(methods: &Vec<Method>, query: &str) -> (r: Vec<usize>)
    ensures
        position_views(r@) == case_matches(methods@, query@),
{
    let wanted = lowercase(query);
    let ghost pred = |i: int| is_case_match(methods@[i].name@, query@);
    let ghost all = upto(methods@.len() as int);
    let mut r: Vec<usize> = Vec::new();
    let mut i: usize = 0;
    assert(all.take(0) == Seq::<int>::empty());
    assert(position_views(r@) =~= all.take(0).filter(pred));
    while i < methods.len()
        invariant
            i <= methods.len(),
            wanted@ == lowercase_of(query@),
            all == upto(methods@.len() as int),
            pred == |i: int| is_case_match(methods@[i].name@, query@),
            position_views(r@) == all.take(i as int).filter(pred),
        decreases methods.len() - i,
    {
        proof {
            assert(all.take(i + 1) == all.take(i as int).push(i as int));
            all.take(i as int).lemma_filter_push(i as int, pred);
        }
        let name = methods[i].name.as_str();
        let lowered = lowercase(name);
        if str_eq(lowered.as_str(), wanted.as_str()) && !str_eq(name, query) {
            assert(position_views(r@.push(i)) =~= position_views(r@).push(i as int));
            r.push(i);
        }
        i += 1;
    }
    assert(all.take(methods.len() as int) == all);
    r
}

/// The distance of every method name from `query`, lowercase forms compared.
pub fn distances(methods: &Vec<Method>, query: &str) -> (r: Vec<usize>)
    ensures
        r@.len() == methods@.len(),
        forall|i: int|
            0 <= i < methods@.len() ==> #[trigger] r@[i] == distance_to(methods@[i].name@, query@),
{
    let wanted = chars_of(lowercase(query).as_str());
    let mut r: Vec<usize> = Vec::new();
    let mut i: usize = 0;
    while i < methods.len()
        invariant
            i <= methods.len(),
            wanted@ == lowercase_of(query@),
            r@.len() == i,
            forall|k: int| 0 <= k < i ==> #[trigger] r@[k] == distance_to(methods@[k].name@, query@),
        decreases methods.len() - i,
    {
        let lowered = chars_of(lowercase(methods[i].name.as_str()).as_str());
        r.push(distance(&wanted, &lowered));
        i += 1;
    }
    r
}

/// Appends to `r` the positions at which `found` holds `d`.
fn collect_at_distance(
    r: &mut Vec<usize>,
    found: &Vec<usize>,
    d: usize,
    Ghost(methods): Ghost<Seq<Method>>,
    Ghost(query): Ghost<Seq<char>>,
)
    requires
        found@.len() == methods.len(),
        forall|i: int| 0 <= i < methods.len() ==> #[trigger] found@[i] == distance_to(
            methods[i].name@,
            query,
        ),
    ensures
        position_views(final(r)@) == position_views(old(r)@) + at_distance(methods, query, d as int),
{
    let ghost pred = |i: int| distance_to(methods[i].name@, query) == d as int;
    let ghost all = upto(methods.len() as int);
    let ghost start = position_views(r@);
    let mut i: usize = 0;
    assert(all.take(0) == Seq::<int>::empty());
    assert(start + all.take(0).filter(pred) =~= start);
    while i < found.len()
        invariant
            i <= found.len(),
            found@.len() == methods.len(),
            forall|k: int| 0 <= k < methods.len() ==> #[trigger] found@[k] == distance_to(
                methods[k].name@,
                query,
            ),
            all == upto(methods.len() as int),
            pred == |i: int| distance_to(methods[i].name@, query) == d as int,
            position_views(r@) == start + all.take(i as int).filter(pred),
        decreases found.len() - i,
    {
        proof {
            assert(all.take(i + 1) == all.take(i as int).push(i as int));
            all.take(i as int).lemma_filter_push(i as int, pred);
        }
        if found[i] == d {
            assert(position_views(r@.push(i)) =~= position_views(r@).push(i as int));
            assert(start + all.take(i as int).filter(pred).push(i as int) =~= (start + all.take(
                i as int,
            ).filter(pred)).push(i as int));
            r.push(i);
        }
        i += 1;
    }
    assert(all.take(found.len() as int) == all);
}

/// The positions of the methods within distance two of `query`, nearest first.
pub fn find_nearest(methods: &Vec<Method>, query: &str) -> (r: Vec<usize>)
    ensures
        position_views(r@) == nearest(methods@, query@),
{
    let found = distances(methods, query);
    let mut r: Vec<usize> = Vec::new();
    assert(position_views(r@) =~= Seq::<int>::empty());
    collect_at_distance(&mut r, &found, 0, Ghost(methods@), Ghost(query@));
    assert(position_views(r@) =~= at_distance(methods@, query@, 0));
    collect_at_distance(&mut r, &found, 1, Ghost(methods@), Ghost(query@));
    collect_at_distance(&mut r, &found, 2, Ghost(methods@), Ghost(query@));
    r
}

/// The positions to suggest for `query` where none differs in case only
/// gives at most `limit` of the nearest.
fn suggested(methods: &Vec<Method>, query: &str, limit: usize) -> (r: Vec<usize>)
    ensures
        position_views(r@) == if case_matches(methods@, query@).len() > 0 {
            case_matches(methods@, query@)
        } else {
            first_n(nearest(methods@, query@), limit as int)
        },
        forall|k: int| 0 <= k < r@.len() ==> (#[trigger] r@[k]) < methods@.len(),
{
    let exact = find_case_matches(methods, query);
    let r = if exact.len() > 0 {
        exact
    } else {
        let near = find_nearest(methods, query);
        if near.len() <= limit {
            near
        } else {
            let mut head: Vec<usize> = Vec::new();
            let mut i: usize = 0;
            while i < limit
                invariant
                    i <= limit < near.len(),
                    position_views(head@) == position_views(near@).take(i as int),
                decreases limit - i,
            {
                assert(position_views(head@.push(near[i as int])) =~= position_views(head@).push(
                    near[i as int] as int,
                ));
                assert(position_views(near@).take(i + 1) =~= position_views(near@).take(
                    i as int,
                ).push(near[i as int] as int));
                head.push(near[i]);
                i += 1;
            }
            head
        }
    };
    proof {
        let all = upto(methods@.len() as int);
        assert forall|k: int| 0 <= k < r@.len() implies (#[trigger] r@[k]) < methods@.len() by {
            let p = position_views(r@)[k];
            let exact_pred = |i: int| is_case_match(methods@[i].name@, query@);
            let zero = |i: int| distance_to(methods@[i].name@, query@) == 0;
            let one = |i: int| distance_to(methods@[i].name@, query@) == 1;
            let two = |i: int| distance_to(methods@[i].name@, query@) == 2;
            lemma_filtered_below(all, exact_pred, methods@.len() as int);
            lemma_filtered_below(all, zero, methods@.len() as int);
            lemma_filtered_below(all, one, methods@.len() as int);
            lemma_filtered_below(all, two, methods@.len() as int);
            if case_matches(methods@, query@).len() > 0 {
                assert(all.filter(exact_pred)[k] == p);
            } else {
                let near = nearest(methods@, query@);
                let d0 = all.filter(zero);
                let d1 = all.filter(one);
                let d2 = all.filter(two);
                assert(near == d0 + d1 + d2);
                assert(position_views(r@).len() == r@.len());
                assert(first_n(near, limit as int).len() <= near.len());
                assert(k < near.len());
                assert(first_n(near, limit as int)[k] == near[k]);
                assert(near[k] == p);
                if k < d0.len() {
                    assert(near[k] == d0[k]);
                } else if k < d0.len() + d1.len() {
                    assert(near[k] == d1[k - d0.len()]);
                } else {
                    assert(near[k] == d2[k - d0.len() - d1.len()]);
                }
            }
        }
    }
    r
}

/// What is kept of numbers below `n` lies below `n`.
proof fn lemma_filtered_below(s: Seq<int>, pred: spec_fn(int) -> bool, n: int)
    requires
        forall|i: int| 0 <= i < s.len() ==> 0 <= #[trigger] s[i] < n,
    ensures
        forall|k: int| 0 <= k < s.filter(pred).len() ==> 0 <= #[trigger] s.filter(pred)[k] < n,
{
    assert forall|k: int| 0 <= k < s.filter(pred).len() implies 0 <= #[trigger] s.filter(pred)[k]
        < n by {
        let v = s.filter(pred)[k];
        assert(s.filter(pred).contains(v));
        s.lemma_filter_contains_rev(pred, v);
        assert(s.contains(v));
        let i = choose|i: int| 0 <= i < s.len() && s[i] == v;
        assert(0 <= s[i] < n);
    }
}

/// Suggestions for a method name: the methods of `methods` whose names
/// differ from `method_name` in case only; where there are none, the five
/// nearest within distance two.
pub fn suggest_names(methods: &Vec<Method>, method_name: &str) -> (r: Vec<String>)
    ensures
        crate::text::str_views(r@) == names_at(methods@, suggested_positions(methods@, method_name@)),
{
    let positions = suggested(methods, method_name, 5);
    let mut r: Vec<String> = Vec::new();
    let mut k: usize = 0;
    let ghost wanted = names_at(methods@, position_views(positions@));
    assert(crate::text::str_views(r@) =~= wanted.take(0));
    while k < positions.len()
        invariant
            k <= positions.len(),
            forall|j: int| 0 <= j < positions@.len() ==> (#[trigger] positions@[j]) < methods@.len(),
            wanted == names_at(methods@, position_views(positions@)),
            crate::text::str_views(r@) == wanted.take(k as int),
        decreases positions.len() - k,
    {
        let name = methods[positions[k]].name.clone();
        assert(crate::text::str_views(r@.push(name)) =~= crate::text::str_views(r@).push(name@));
        assert(position_views(positions@)[k as int] == positions@[k as int]);
        assert(wanted.take(k + 1) =~= wanted.take(k as int).push(name@));
        r.push(name);
        k += 1;
    }
    assert(wanted.take(positions.len() as int) == wanted);
    r
}

/// The signatures of the methods at the given positions, at most `limit`
/// of each, each paired with the name of its method.
fn collect_signatures(methods: &Vec<Method>, positions: &Vec<usize>, limit: usize) -> (r: Vec<
    (String, String),
>)
    requires
        forall|j: int| 0 <= j < positions@.len() ==> (#[trigger] positions@[j]) < methods@.len(),
    ensures
        pair_views(r@) == signatures_upto(
            methods@,
            position_views(positions@),
            limit as int,
            positions@.len() as int,
        ),
{
    let ghost places = position_views(positions@);
    let mut r: Vec<(String, String)> = Vec::new();
    let mut k: usize = 0;
    assert(pair_views(r@) =~= signatures_upto(methods@, places, limit as int, 0));
    while k < positions.len()
        invariant
            k <= positions.len(),
            forall|j: int| 0 <= j < positions@.len() ==> (#[trigger] positions@[j]) < methods@.len(),
            places == position_views(positions@),
            pair_views(r@) == signatures_upto(methods@, places, limit as int, k as int),
        decreases positions.len() - k,
    {
        let method = &methods[positions[k]];
        assert(methods@[places[k as int]] == *method);
        let count: usize = if method.overloads.len() <= limit {
            method.overloads.len()
        } else {
            limit
        };
        let ghost before = pair_views(r@);
        let ghost wanted = signatures_of(*method, limit as int);
        assert(wanted.len() == count);
        let mut o: usize = 0;
        assert(before + wanted.take(0) =~= before);
        while o < count
            invariant
                o <= count <= method.overloads@.len(),
                wanted == signatures_of(*method, limit as int),
                wanted.len() == count,
                pair_views(r@) == before + wanted.take(o as int),
            decreases count - o,
        {
            let pair = (method.name.clone(), method.overloads[o].signature.clone());
            assert(pair_views(r@.push(pair)) =~= pair_views(r@).push((pair.0@, pair.1@)));
            assert(wanted.take(o + 1) =~= wanted.take(o as int).push((pair.0@, pair.1@)));
            assert(before + wanted.take(o as int).push((pair.0@, pair.1@)) =~= (before
                + wanted.take(o as int)).push((pair.0@, pair.1@)));
            r.push(pair);
            o += 1;
        }
        assert(wanted.take(count as int) == wanted);
        k += 1;
    }
    r
}

/// Get suggestions for a class name: up to five of the indexed names
/// that contain it, case ignored.
pub fn get_class_suggestions(docs: &DocsIndex, class_name: &str) -> (r: Vec<String>)
    requires
        docs.wf(),
    ensures
        crate::text::str_views(r@) == first_n(
            crate::text::str_views(docs.class_names@).filter(
                |n: Seq<char>| crate::docs::name_matches(n, class_name@),
            ),
            5,
        ),
{
    let results = docs.search_classes(class_name);
    let ghost names = Seq::new(results@.len(), |i: int| results@[i].0@);
    let count: usize = if results.len() <= 5 {
        results.len()
    } else {
        5
    };
    let mut r: Vec<String> = Vec::new();
    let mut i: usize = 0;
    assert(crate::text::str_views(r@) =~= names.take(0));
    while i < count
        invariant
            i <= count <= results@.len(),
            names == Seq::new(results@.len(), |i: int| results@[i].0@),
            crate::text::str_views(r@) == names.take(i as int),
        decreases count - i,
    {
        let name = results[i].0.clone();
        assert(crate::text::str_views(r@.push(name)) =~= crate::text::str_views(r@).push(name@));
        assert(names.take(i + 1) =~= names.take(i as int).push(name@));
        r.push(name);
        i += 1;
    }
    assert(names.take(names.len() as int) == names);
    r
}

/// Get suggestions for a method name in a specific class: nothing where
/// the index does not list the class.
pub fn get_method_suggestions(docs: &DocsIndex, class_name: &str, method_name: &str) -> (r: Vec<
    String,
>)
    requires
        docs.wf(),
    ensures
        crate::text::str_views(r@) == if docs.classes@.contains_key(class_name@) {
            names_at(
                docs.class_named(class_name@).methods@,
                suggested_positions(docs.class_named(class_name@).methods@, method_name@),
            )
        } else {
            Seq::empty()
        },
{
    match docs.get_class(class_name) {
        None => {
            let r: Vec<String> = Vec::new();
            assert(crate::text::str_views(r@) =~= Seq::<Seq<char>>::empty());
            r
        },
        Some(class) => suggest_names(&class.methods, method_name),
    }
}

/// Get detailed method suggestions with signature info: pairs of method
/// name and signature; nothing where the index does not list the class.
pub fn get_method_suggestions_with_signatures(
    docs: &DocsIndex,
    class_name: &str,
    method_name: &str,
) -> (r: Vec<(String, String)>)
    requires
        docs.wf(),
    ensures
        pair_views(r@) == if docs.classes@.contains_key(class_name@) {
            suggested_signatures(docs.class_named(class_name@).methods@, method_name@)
        } else {
            Seq::empty()
        },
{
    match docs.get_class(class_name) {
        None => {
            let r: Vec<(String, String)> = Vec::new();
            assert(pair_views(r@) =~= Seq::<(Seq<char>, Seq<char>)>::empty());
            r
        },
        Some(class) => {
            let exact = find_case_matches(&class.methods, method_name);
            if exact.len() > 0 {
                proof {
                    let all = upto(class.methods@.len() as int);
                    let pred = |i: int| is_case_match(class.methods@[i].name@, method_name@);
                    lemma_filtered_below(all, pred, class.methods@.len() as int);
                    assert forall|j: int| 0 <= j < exact@.len() implies (#[trigger] exact@[j])
                        < class.methods@.len() by {
                        assert(position_views(exact@)[j] == all.filter(pred)[j]);
                    }
                }
                collect_signatures(&class.methods, &exact, usize::MAX)
            } else {
                let near = suggested(&class.methods, method_name, 3);
                collect_signatures(&class.methods, &near, 2)
            }
        },
    }
}

/// The positions of the methods whose names hold `query`, case ignored;
/// of all methods where there is no query.
pub open spec fn matching_positions(methods: Seq<Method>, query: Option<Seq<char>>) -> Seq<int> {
    match query {
        Some(q) => upto(methods.len() as int).filter(
            |i: int| crate::docs::name_matches(methods[i].name@, q),
        ),
        None => upto(methods.len() as int),
    }
}

/// The positions of the methods whose names hold `query`, case ignored;
/// of all methods where there is no query.
pub fn find_matching(methods: &Vec<Method>, query: Option<&str>) -> (r: Vec<usize>)
    ensures
        position_views(r@) == matching_positions(
            methods@,
            match query {
                Some(q) => Some(q@),
                None => None,
            },
        ),
        forall|k: int| 0 <= k < r@.len() ==> (#[trigger] r@[k]) < methods@.len(),
{
    let ghost all = upto(methods@.len() as int);
    let mut r: Vec<usize> = Vec::new();
    let mut i: usize = 0;
    match query {
        None => {
            assert(position_views(r@) =~= all.take(0));
            while i < methods.len()
                invariant
                    i <= methods.len(),
                    all == upto(methods@.len() as int),
                    position_views(r@) == all.take(i as int),
                    forall|k: int| 0 <= k < r@.len() ==> (#[trigger] r@[k]) < methods@.len(),
                decreases methods.len() - i,
            {
                assert(position_views(r@.push(i)) =~= position_views(r@).push(i as int));
                assert(all.take(i + 1) =~= all.take(i as int).push(i as int));
                r.push(i);
                i += 1;
            }
            assert(all.take(methods.len() as int) == all);
        },
        Some(q) => {
            let needle = chars_of(lowercase(q).as_str());
            let ghost pred = |i: int| crate::docs::name_matches(methods@[i].name@, q@);
            assert(all.take(0) == Seq::<int>::empty());
            assert(position_views(r@) =~= all.take(0).filter(pred));
            while i < methods.len()
                invariant
                    i <= methods.len(),
                    needle@ == lowercase_of(q@),
                    all == upto(methods@.len() as int),
                    pred == |i: int| crate::docs::name_matches(methods@[i].name@, q@),
                    position_views(r@) == all.take(i as int).filter(pred),
                    forall|k: int| 0 <= k < r@.len() ==> (#[trigger] r@[k]) < methods@.len(),
                decreases methods.len() - i,
            {
                proof {
                    assert(all.take(i + 1) == all.take(i as int).push(i as int));
                    all.take(i as int).lemma_filter_push(i as int, pred);
                }
                let hay = chars_of(lowercase(methods[i].name.as_str()).as_str());
                if crate::text::contains(&hay, &needle) {
                    assert(position_views(r@.push(i)) =~= position_views(r@).push(i as int));
                    r.push(i);
                }
                i += 1;
            }
            assert(all.take(methods.len() as int) == all);
        },
    }
    r
}

} // verus!

//! Domain-name decomposition: a fully qualified name is split into a
//! `(subdomain, zone)` pair, where the zone is the last two
//! dot-separated labels joined by `.` and the subdomain is every label
//! before them, joined by `.` (empty when the name has exactly two
//! labels).

use vstd::prelude::*;
use vstd::string::StrSliceExecFns;

verus! {

/// The dot-separated labels of `s`, in order. Every name has at least
/// one label: an empty string has the single empty label, and each dot
/// separates two (possibly empty) labels.
pub open spec fn labels_of(s: Seq<char>) -> Seq<Seq<char>>
    decreases s.len(),
{
    if s.len() == 0 {
        seq![Seq::<char>::empty()]
    } else if s[0] == '.' {
        seq![Seq::<char>::empty()] + labels_of(s.skip(1))
    } else {
        let rest = labels_of(s.skip(1));
        seq![seq![s[0]] + rest[0]] + rest.skip(1)
    }
}

/// Joins labels back into a name, with a dot between consecutive
/// labels.
pub open spec fn join_labels(ls: Seq<Seq<char>>) -> Seq<char>
    decreases ls.len(),
{
    if ls.len() == 0 {
        Seq::<char>::empty()
    } else if ls.len() == 1 {
        ls[0]
    } else {
        ls[0] + seq!['.'] + join_labels(ls.skip(1))
    }
}

/// No character of `s` in the index range `[lo, hi)` is a dot.
pub open spec fn dot_free(s: Seq<char>, lo: int, hi: int) -> bool {
    forall|t: int| lo <= t < hi ==> s[t] != '.'
}

proof fn lemma_labels_len(s: Seq<char>)
    ensures
        labels_of(s).len() >= 1,
    decreases s.len(),
{
    if s.len() == 0 {
    } else if s[0] == '.' {
    } else {
    }
}

/// A name without any dot consists of the single label `s`.
proof fn lemma_labels_dot_free(s: Seq<char>)
    requires
        dot_free(s, 0, s.len() as int),
    ensures
        labels_of(s) == seq![s],
    decreases s.len(),
{
    if s.len() == 0 {
        assert(labels_of(s) =~~= seq![s]);
    } else {
        assert(forall|t: int| 0 <= t < s.skip(1).len() ==> #[trigger] s.skip(1)[t] == s[t + 1]);
        lemma_labels_dot_free(s.skip(1));
        assert(seq![s[0]] + s.skip(1) =~= s);
        assert(labels_of(s) =~~= seq![s]);
    }
}

/// Splitting a name at a dot splits its label list: the labels of the
/// whole are the labels before the dot followed by the labels after
/// it.
proof fn lemma_labels_split(s: Seq<char>, p: int)
    requires
        0 <= p < s.len(),
        s[p] == '.',
    ensures
        labels_of(s) == labels_of(s.take(p)) + labels_of(s.skip(p + 1)),
    decreases p,
{
    if p == 0 {
        assert(s.take(0) =~= Seq::<char>::empty());
        assert(labels_of(s) =~~= labels_of(s.take(0)) + labels_of(s.skip(1)));
    } else {
        let t = s.skip(1);
        assert(t[p - 1] == s[p]);
        lemma_labels_split(t, p - 1);
        assert(t.take(p - 1) =~= s.subrange(1, p));
        assert(t.skip(p) =~= s.skip(p + 1));
        let l1 = labels_of(s.subrange(1, p));
        let l2 = labels_of(s.skip(p + 1));
        assert(labels_of(t) == l1 + l2);
        lemma_labels_len(s.subrange(1, p));
        assert(s.take(p).len() == p);
        assert(s.take(p)[0] == s[0]);
        assert(s.take(p).skip(1) =~= s.subrange(1, p));
        if s[0] == '.' {
            assert(labels_of(s.take(p)) == seq![Seq::<char>::empty()] + l1);
            assert(labels_of(s) =~~= labels_of(s.take(p)) + l2);
        } else {
            assert((l1 + l2)[0] == l1[0]);
            assert((l1 + l2).skip(1) =~~= l1.skip(1) + l2);
            assert(labels_of(s.take(p)) == seq![seq![s[0]] + l1[0]] + l1.skip(1));
            assert(labels_of(s) =~~= labels_of(s.take(p)) + l2);
        }
    }
}

/// Joining the labels of a name yields the name back.
proof fn lemma_join_labels_of(s: Seq<char>)
    ensures
        join_labels(labels_of(s)) == s,
    decreases s.len(),
{
    if s.len() == 0 {
    } else if s[0] == '.' {
        lemma_join_labels_of(s.skip(1));
        lemma_labels_len(s.skip(1));
        let rest = labels_of(s.skip(1));
        let ls = labels_of(s);
        assert(ls == seq![Seq::<char>::empty()] + rest);
        assert(ls.len() == 1 + rest.len());
        assert(ls.skip(1) =~~= rest);
        assert(ls[0] =~= Seq::<char>::empty());
        assert(join_labels(ls) == ls[0] + seq!['.'] + join_labels(rest));
        assert(join_labels(ls) =~= s);
    } else {
        lemma_join_labels_of(s.skip(1));
        lemma_labels_len(s.skip(1));
        let rest = labels_of(s.skip(1));
        let ls = labels_of(s);
        assert(ls == seq![seq![s[0]] + rest[0]] + rest.skip(1));
        assert(ls[0] == seq![s[0]] + rest[0]);
        if rest.len() == 1 {
            assert(ls.len() == 1);
            assert(join_labels(ls) == seq![s[0]] + rest[0]);
            assert(join_labels(rest) == rest[0]);
            assert(join_labels(ls) =~= s);
        } else {
            assert(ls.len() == rest.len());
            assert(ls.skip(1) =~~= rest.skip(1));
            assert(join_labels(ls) == ls[0] + seq!['.'] + join_labels(rest.skip(1)));
            assert(join_labels(rest) == rest[0] + seq!['.'] + join_labels(rest.skip(1)));
            assert(join_labels(ls) =~= seq![s[0]] + join_labels(rest));
            assert(seq![s[0]] + s.skip(1) =~= s);
        }
    }
}

/// Splits a fully qualified name into `(subdomain, zone)`.
///
/// With `n >= 2` labels, the zone is the last two labels joined by
/// `.` and the subdomain is the remaining prefix of labels joined by
/// `.`, empty when `n == 2`. A name with fewer than two labels is the
/// caller's responsibility to avoid.
pub fn split_domain(domain: &str) -> (r: (String, String))
    requires
        labels_of(domain@).len() >= 2,
    ensures
        ({
            let ls = labels_of(domain@);
            &&& r.0@ == join_labels(ls.take(ls.len() - 2))
            &&& r.1@ == join_labels(ls.skip(ls.len() - 2))
            &&& r.1@ == ls[ls.len() - 2] + seq!['.'] + ls[ls.len() - 1]
            &&& ls.len() == 2 ==> r.0@ == Seq::<char>::empty()
        }),
{
    let ghost s = domain@;
    let n = domain.unicode_len();
    let mut i: usize = 0;
    let mut last: Option<usize> = None;
    let mut prev: Option<usize> = None;
    while i < n
        invariant
            i <= n,
            n == s.len(),
            s == domain@,
            last is None ==> prev is None && dot_free(s, 0, i as int),
            last matches Some(j) ==> j < i && s[j as int] == '.' && dot_free(
                s,
                j as int + 1,
                i as int,
            ),
            last matches Some(j) ==> (prev is None ==> dot_free(s, 0, j as int)),
            last matches Some(j) ==> (prev matches Some(k) ==> k < j && s[k as int] == '.'
                && dot_free(s, k as int + 1, j as int)),
        decreases n - i,
    {
        let c = domain.get_char(i);
        if c == '.' {
            prev = last;
            last = Some(i);
        }
        i += 1;
    }
    match (last, prev) {
        (None, _) => {
            proof {
                lemma_labels_dot_free(s);
            }
            assert(false);
            (String::new(), String::new())
        },
        (Some(j), None) => {
            let zone = domain.to_owned();
            proof {
                lemma_labels_split(s, j as int);
                assert(forall|t: int| 0 <= t < j ==> #[trigger] s.take(j as int)[t] == s[t]);
                assert(forall|t: int|
                    0 <= t < s.skip(j as int + 1).len() ==> #[trigger] s.skip(j as int + 1)[t]
                        == s[t + j + 1]);
                lemma_labels_dot_free(s.take(j as int));
                lemma_labels_dot_free(s.skip(j as int + 1));
                let ls = labels_of(s);
                let two = seq![s.take(j as int), s.skip(j as int + 1)];
                assert(ls =~~= two);
                assert(ls.take(0) =~~= Seq::<Seq<char>>::empty());
                assert(ls.skip(0) =~~= ls);
                assert(two.skip(1) =~~= seq![s.skip(j as int + 1)]);
                assert(join_labels(seq![s.skip(j as int + 1)]) == s.skip(j as int + 1));
                assert(join_labels(two) == two[0] + seq!['.'] + s.skip(j as int + 1));
                assert(join_labels(ls) =~= s);
            }
            (String::new(), zone)
        },
        (Some(j), Some(k)) => {
            let sub = domain.substring_char(0, k).to_owned();
            let zone = domain.substring_char(k + 1, n).to_owned();
            proof {
                let ki = k as int;
                let ji = j as int;
                lemma_labels_split(s, ki);
                let tail = s.skip(ki + 1);
                assert(forall|t: int| 0 <= t < tail.len() ==> #[trigger] tail[t] == s[t + ki + 1]);
                assert(tail[ji - ki - 1] == '.');
                lemma_labels_split(tail, ji - ki - 1);
                assert(tail.take(ji - ki - 1) =~= s.subrange(ki + 1, ji));
                assert(tail.skip(ji - ki) =~= s.skip(ji + 1));
                let mid = s.subrange(ki + 1, ji);
                let end = s.skip(ji + 1);
                assert(forall|t: int| 0 <= t < mid.len() ==> #[trigger] mid[t] == s[t + ki + 1]);
                assert(forall|t: int| 0 <= t < end.len() ==> #[trigger] end[t] == s[t + ji + 1]);
                lemma_labels_dot_free(mid);
                lemma_labels_dot_free(end);
                assert(labels_of(tail) =~~= seq![mid, end]);
                let front = labels_of(s.take(ki));
                lemma_labels_len(s.take(ki));
                let ls = labels_of(s);
                assert(ls == front + seq![mid, end]);
                assert(ls.take(ls.len() - 2) =~~= front);
                assert(ls.skip(ls.len() - 2) =~~= seq![mid, end]);
                lemma_join_labels_of(s.take(ki));
                let two = seq![mid, end];
                assert(two.skip(1) =~~= seq![end]);
                assert(join_labels(seq![end]) == end);
                assert(join_labels(two) == mid + seq!['.'] + end);
                assert(join_labels(two) =~= s.skip(ki + 1));
                assert(sub@ == s.take(ki));
                assert(zone@ =~= s.skip(ki + 1));
            }
            (sub, zone)
        },
    }
}

/// The lookup key actually used against the registrar: an empty
/// subdomain stands for the zone apex, which this registrar's listing
/// convention labels with the zone name itself.
pub fn effective_subdomain(subdomain: &String, zone: &String) -> (key: String)
    ensures
        subdomain@.len() == 0 ==> key@ == zone@,
        subdomain@.len() > 0 ==> key@ == subdomain@,
{
    if subdomain.as_str().is_empty() {
        zone.clone()
    } else {
        subdomain.clone()
    }
}

} // verus!

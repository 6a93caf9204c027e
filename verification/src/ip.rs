//! Normalizing the body returned by the IP-echo service: the observed
//! address is the response body with surrounding whitespace removed,
//! and is otherwise treated as an opaque string.

use vstd::prelude::*;
use vstd::string::StrSliceExecFns;

verus! {

/// The whitespace an IP-echo response may carry around the address.
pub open spec fn is_space_char(c: char) -> bool {
    c == ' ' || c == '\t' || c == '\r' || c == '\n'
}

/// `s` without its leading whitespace.
pub open spec fn drop_leading_space(s: Seq<char>) -> Seq<char>
    decreases s.len(),
{
    if s.len() > 0 && is_space_char(s[0]) {
        drop_leading_space(s.skip(1))
    } else {
        s
    }
}

/// `s` without its trailing whitespace.
pub open spec fn drop_trailing_space(s: Seq<char>) -> Seq<char>
    decreases s.len(),
{
    if s.len() > 0 && is_space_char(s[s.len() - 1]) {
        drop_trailing_space(s.take(s.len() - 1))
    } else {
        s
    }
}

/// `s` without leading and trailing whitespace.
pub open spec fn trimmed(s: Seq<char>) -> Seq<char> {
    drop_trailing_space(drop_leading_space(s))
}

fn is_space(c: char) -> (b: bool)
    ensures
        b == is_space_char(c),
{
    c == ' ' || c == '\t' || c == '\r' || c == '\n'
}

proof fn lemma_drop_leading_skip(s: Seq<char>, a: int)
    requires
        0 <= a <= s.len(),
        forall|t: int| 0 <= t < a ==> is_space_char(s[t]),
    ensures
        drop_leading_space(s) == drop_leading_space(s.skip(a)),
    decreases a,
{
    if a == 0 {
        assert(s.skip(0) =~= s);
    } else {
        assert(is_space_char(s[0]));
        assert(forall|t: int| 0 <= t < s.skip(1).len() ==> #[trigger] s.skip(1)[t] == s[t + 1]);
        lemma_drop_leading_skip(s.skip(1), a - 1);
        assert(s.skip(1).skip(a - 1) =~= s.skip(a));
    }
}

proof fn lemma_drop_trailing_take(u: Seq<char>, m: int)
    requires
        0 <= m <= u.len(),
        forall|t: int| m <= t < u.len() ==> is_space_char(u[t]),
    ensures
        drop_trailing_space(u) == drop_trailing_space(u.take(m)),
    decreases u.len() - m,
{
    if m == u.len() {
        assert(u.take(m) =~= u);
    } else {
        assert(is_space_char(u[u.len() - 1]));
        let w = u.take(u.len() - 1);
        assert(forall|t: int| 0 <= t < w.len() ==> #[trigger] w[t] == u[t]);
        lemma_drop_trailing_take(w, m);
        assert(w.take(m) =~= u.take(m));
    }
}

/// The observed address carried by an IP-echo response body: the body
/// with surrounding whitespace removed.
pub fn trim_whitespace(s: &str) -> (r: String)
    ensures
        r@ == trimmed(s@),
{
    let n = s.unicode_len();
    let mut a: usize = 0;
    loop
        invariant
            n == s@.len(),
            a <= n,
            forall|t: int| 0 <= t < a ==> is_space_char(s@[t]),
        ensures
            a == n || (a < n && !is_space_char(s@[a as int])),
        decreases n - a,
    {
        if a == n {
            break ;
        }
        let c = s.get_char(a);
        if !is_space(c) {
            break ;
        }
        a += 1;
    }
    if a == n {
        proof {
            lemma_drop_leading_skip(s@, a as int);
            assert(s@.skip(n as int) =~= Seq::<char>::empty());
            assert(trimmed(s@) =~= Seq::<char>::empty());
        }
        return String::new();
    }
    let mut b: usize = n;
    loop
        invariant
            n == s@.len(),
            a < n,
            !is_space_char(s@[a as int]),
            a <= b <= n,
            forall|t: int| b <= t < n ==> is_space_char(s@[t]),
        ensures
            a <= b <= n,
            b == a || !is_space_char(s@[b - 1]),
        decreases b,
    {
        if b == a {
            break ;
        }
        let c = s.get_char(b - 1);
        if !is_space(c) {
            break ;
        }
        b -= 1;
    }
    proof {
        if b == a {
            assert(is_space_char(s@[a as int]));
        }
    }
    let r = s.substring_char(a, b).to_owned();
    proof {
        lemma_drop_leading_skip(s@, a as int);
        let u = s@.skip(a as int);
        assert(forall|t: int| 0 <= t < u.len() ==> #[trigger] u[t] == s@[t + a]);
        assert(!is_space_char(u[0]));
        assert(drop_leading_space(s@) == u);
        lemma_drop_trailing_take(u, b - a);
        let v = s@.subrange(a as int, b as int);
        assert(u.take(b - a) =~= v);
        assert(v[v.len() - 1] == s@[b - 1]);
        assert(drop_trailing_space(v) == v);
        assert(r@ == trimmed(s@));
    }
    r
}

} // verus!

//! The order of `String`s: byte-wise lexicographic on their UTF-8 encoding.
use vstd::prelude::*;
use vstd::relations::{sorted_by, total_ordering};
use vstd::utf8::*;

use crate::text::{bytes, skip};

verus! {

broadcast use vstd::utf8::encode_utf8_decode_utf8;

/// `a` comes before `b` in byte-wise lexicographic order: at the first byte
/// where they differ `a` has the smaller byte, or `a` is a proper prefix of
/// `b`.
pub open spec fn lex_lt(a: Seq<u8>, b: Seq<u8>) -> bool
    decreases a.len(),
{
    if a.len() == 0 {
        b.len() > 0
    } else if b.len() == 0 {
        false
    } else if a[0] != b[0] {
        a[0] < b[0]
    } else {
        lex_lt(a.drop_first(), b.drop_first())
    }
}

/// `a` comes before `b` or is `b`, comparing UTF-8 encodings, as `Ord` for
/// `String` does.
pub open spec fn name_le(a: Seq<char>, b: Seq<char>) -> bool {
    a == b || lex_lt(encode_utf8(a), encode_utf8(b))
}

/// The order of names, as a relation.
pub open spec fn name_order() -> spec_fn(Seq<char>, Seq<char>) -> bool {
    |a: Seq<char>, b: Seq<char>| name_le(a, b)
}

/// The names in `String` order.
pub open spec fn sorted_names(names: Seq<Seq<char>>) -> Seq<Seq<char>> {
    names.sort_by(name_order())
}

pub proof fn lemma_lex_irreflexive(a: Seq<u8>)
    ensures
        !lex_lt(a, a),
    decreases a.len(),
{
    if a.len() > 0 {
        lemma_lex_irreflexive(a.drop_first());
    }
}

pub proof fn lemma_lex_asymmetric(a: Seq<u8>, b: Seq<u8>)
    requires
        lex_lt(a, b),
    ensures
        !lex_lt(b, a),
    decreases a.len(),
{
    if a.len() > 0 && b.len() > 0 && a[0] == b[0] {
        lemma_lex_asymmetric(a.drop_first(), b.drop_first());
    }
}

pub proof fn lemma_lex_transitive(a: Seq<u8>, b: Seq<u8>, c: Seq<u8>)
    requires
        lex_lt(a, b),
        lex_lt(b, c),
    ensures
        lex_lt(a, c),
    decreases a.len(),
{
    if a.len() > 0 && b.len() > 0 && c.len() > 0 && a[0] == b[0] && b[0] == c[0] {
        lemma_lex_transitive(a.drop_first(), b.drop_first(), c.drop_first());
    }
}

pub proof fn lemma_lex_total(a: Seq<u8>, b: Seq<u8>)
    ensures
        a == b || lex_lt(a, b) || lex_lt(b, a),
    decreases a.len(),
{
    if a.len() > 0 && b.len() > 0 && a[0] == b[0] {
        lemma_lex_total(a.drop_first(), b.drop_first());
        if a.drop_first() == b.drop_first() {
            assert(a =~= seq![a[0]] + a.drop_first());
            assert(b =~= seq![b[0]] + b.drop_first());
        }
    } else if a.len() == 0 && b.len() == 0 {
        assert(a =~= b);
    }
}

/// The order of names is a total order.
pub proof fn lemma_name_order_total()
    ensures
        total_ordering(name_order()),
{
    let r = name_order();
    assert forall|a: Seq<char>, b: Seq<char>| #[trigger] r(a, b) && #[trigger] r(b, a) implies a
        == b by {
        if a != b {
            assert(encode_utf8(a) != encode_utf8(b)) by {
                if encode_utf8(a) == encode_utf8(b) {
                    assert(decode_utf8(encode_utf8(a)) == decode_utf8(encode_utf8(b)));
                }
            }
            lemma_lex_asymmetric(encode_utf8(a), encode_utf8(b));
        }
    }
    assert forall|a: Seq<char>, b: Seq<char>, c: Seq<char>| #[trigger] r(a, b) && #[trigger] r(b, c)
        implies r(a, c) by {
        if a != b && b != c {
            lemma_lex_transitive(encode_utf8(a), encode_utf8(b), encode_utf8(c));
        }
    }
    assert forall|a: Seq<char>, b: Seq<char>| #[trigger] r(a, b) || r(b, a) by {
        lemma_lex_total(encode_utf8(a), encode_utf8(b));
        if encode_utf8(a) == encode_utf8(b) {
            assert(decode_utf8(encode_utf8(a)) == decode_utf8(encode_utf8(b)));
        }
    }
}

/// Whether `a` comes strictly before `b` in byte-wise order.
pub fn bytes_less(a: &[u8], b: &[u8]) -> (r: bool)
    ensures
        r == lex_lt(a@, b@),
{
    let mut i: usize = 0;
    let n = a.len();
    let m = b.len();
    proof {
        assert(skip(a@, 0) =~= a@);
        assert(skip(b@, 0) =~= b@);
    }
    while i < n && i < m
        invariant
            n == a@.len(),
            m == b@.len(),
            0 <= i <= n,
            i <= m,
            lex_lt(a@, b@) == lex_lt(skip(a@, i as int), skip(b@, i as int)),
        decreases n - i,
    {
        if a[i] != b[i] {
            return a[i] < b[i];
        }
        proof {
            assert(skip(a@, i + 1) =~= skip(a@, i as int).drop_first());
            assert(skip(b@, i + 1) =~= skip(b@, i as int).drop_first());
        }
        i = i + 1;
    }
    i < m
}

/// Whether name `a` comes strictly before name `b`.
pub fn name_less(a: &String, b: &String) -> (r: bool)
    ensures
        r == lex_lt(bytes(*a), bytes(*b)),
{
    bytes_less(a.as_str().as_bytes(), b.as_str().as_bytes())
}

/// The views of a list of strings.
pub open spec fn views(v: Seq<String>) -> Seq<Seq<char>> {
    v.map_values(|s: String| s@)
}

/// Inserting `x` in front of the first name that comes after it keeps a
/// sorted list sorted.
proof fn lemma_insert_sorted(v: Seq<Seq<char>>, x: Seq<char>, p: int)
    requires
        sorted_by(v, name_order()),
        0 <= p <= v.len(),
        forall|k: int| 0 <= k < p ==> !lex_lt(encode_utf8(x), encode_utf8(#[trigger] v[k])),
        p < v.len() ==> lex_lt(encode_utf8(x), encode_utf8(v[p])),
    ensures
        sorted_by(v.insert(p, x), name_order()),
{
    let w = v.insert(p, x);
    assert forall|a: int, b: int| 0 <= a < b < w.len() implies #[trigger] name_order()(w[a], w[b]) by {
        if b < p {
            assert(name_order()(v[a], v[b]));
        } else if b == p {
            assert(!lex_lt(encode_utf8(x), encode_utf8(v[a])));
            lemma_lex_total(encode_utf8(v[a]), encode_utf8(x));
            if encode_utf8(v[a]) == encode_utf8(x) {
                assert(decode_utf8(encode_utf8(v[a])) == decode_utf8(encode_utf8(x)));
            }
        } else if a < p {
            assert(name_order()(v[a], v[b - 1]));
        } else if a == p {
            if b - 1 > p {
                assert(name_order()(v[p], v[b - 1]));
                if v[p] != v[b - 1] {
                    lemma_lex_transitive(encode_utf8(x), encode_utf8(v[p]), encode_utf8(v[b - 1]));
                }
            }
        } else {
            assert(name_order()(v[a - 1], v[b - 1]));
        }
    }
}

/// Copies the names into `String` order.
pub fn sort_names(names: &[String]) -> (r: Vec<String>)
    ensures
        views(r@) == sorted_names(views(names@)),
{
    let mut out: Vec<String> = Vec::new();
    let mut i: usize = 0;
    proof {
        assert(views(out@) =~= views(names@).take(0));
    }
    while i < names.len()
        invariant
            0 <= i <= names@.len(),
            sorted_by(views(out@), name_order()),
            views(out@).to_multiset() == views(names@).take(i as int).to_multiset(),
        decreases names@.len() - i,
    {
        let x = names[i].clone();
        let mut p: usize = 0;
        while p < out.len() && !name_less(&x, &out[p])
            invariant
                0 <= p <= out@.len(),
                forall|k: int|
                    0 <= k < p ==> !lex_lt(encode_utf8(x@), encode_utf8(#[trigger] views(out@)[k])),
            decreases out@.len() - p,
        {
            p = p + 1;
        }
        let ghost before = views(out@);
        proof {
            lemma_insert_sorted(before, x@, p as int);
        }
        out.insert(p, x);
        proof {
            assert(views(out@) =~= before.insert(p as int, x@));
            assert(views(names@).take(i + 1) =~= views(names@).take(i as int).push(x@));
            vstd::seq_lib::to_multiset_insert(before, p as int, x@);
            vstd::seq_lib::to_multiset_build(views(names@).take(i as int), x@);
        }
        i = i + 1;
    }
    proof {
        assert(views(names@).take(names@.len() as int) =~= views(names@));
        lemma_name_order_total();
        views(names@).lemma_sort_by_ensures(name_order());
        vstd::seq_lib::lemma_sorted_unique(views(out@), sorted_names(views(names@)), name_order());
    }
    out
}

} // verus!

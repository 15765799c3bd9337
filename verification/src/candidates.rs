use vstd::prelude::*;
use vstd::string::StrSliceExecFns;

verus! {

/// Code-point lexicographic order on strings: `a <= b`.
pub open spec fn lex_le(a: Seq<char>, b: Seq<char>) -> bool
    decreases a.len(),
{
    if a.len() == 0 {
        true
    } else if b.len() == 0 {
        false
    } else if a[0] == b[0] {
        lex_le(a.drop_first(), b.drop_first())
    } else {
        (a[0] as u32) < (b[0] as u32)
    }
}

/// Strict code-point lexicographic order on strings: `a < b`.
pub open spec fn lex_lt(a: Seq<char>, b: Seq<char>) -> bool {
    lex_le(a, b) && a != b
}

/// A candidate set is strictly ascending: sorted with no duplicates.
pub open spec fn strictly_sorted(s: Seq<Seq<char>>) -> bool {
    forall|i: int, j: int| 0 <= i < j < s.len() ==> lex_lt(s[i], s[j])
}

/// Distinct characters have distinct code points.
proof fn lemma_char_code_injective(c: char, d: char)
    requires
        c != d,
    ensures
        c as u32 != d as u32,
{
}

pub proof fn lemma_lex_le_total(a: Seq<char>, b: Seq<char>)
    ensures
        lex_le(a, b) || lex_le(b, a),
    decreases a.len(),
{
    if a.len() == 0 || b.len() == 0 {
    } else if a[0] == b[0] {
        lemma_lex_le_total(a.drop_first(), b.drop_first());
    } else {
        lemma_char_code_injective(a[0], b[0]);
    }
}

pub proof fn lemma_lex_le_antisym(a: Seq<char>, b: Seq<char>)
    requires
        lex_le(a, b),
        lex_le(b, a),
    ensures
        a == b,
    decreases a.len(),
{
    if a.len() == 0 {
        assert(b.len() == 0);
        assert(a =~= b);
    } else {
        assert(a[0] == b[0]);
        lemma_lex_le_antisym(a.drop_first(), b.drop_first());
        assert(a.len() == b.len());
        assert forall|i: int| 0 <= i < a.len() implies a[i] == b[i] by {
            if i > 0 {
                assert(a[i] == a.drop_first()[i - 1]);
                assert(b[i] == b.drop_first()[i - 1]);
            }
        }
        assert(a =~= b);
    }
}

pub proof fn lemma_lex_le_trans(a: Seq<char>, b: Seq<char>, c: Seq<char>)
    requires
        lex_le(a, b),
        lex_le(b, c),
    ensures
        lex_le(a, c),
    decreases a.len(),
{
    if a.len() == 0 {
    } else {
        assert(b.len() > 0);
        assert(c.len() > 0);
        if a[0] == b[0] && b[0] == c[0] {
            lemma_lex_le_trans(a.drop_first(), b.drop_first(), c.drop_first());
        }
    }
}

/// A strict bound carries through a chain in either direction.
pub proof fn lemma_lex_lt_trans(a: Seq<char>, b: Seq<char>, c: Seq<char>)
    requires
        lex_lt(a, b) && lex_le(b, c) || lex_le(a, b) && lex_lt(b, c),
    ensures
        lex_lt(a, c),
{
    lemma_lex_le_trans(a, b, c);
    if a == c {
        lemma_lex_le_antisym(a, b);
        lemma_lex_le_antisym(b, c);
    }
}

/// `x` placed at its position in an already strictly ascending sequence;
/// when `x` is present it is left where it stands.
pub open spec fn insert_candidate(x: Seq<char>, s: Seq<Seq<char>>) -> Seq<Seq<char>>
    decreases s.len(),
{
    if s.len() == 0 {
        seq![x]
    } else if x == s[0] {
        s
    } else if lex_lt(x, s[0]) {
        seq![x] + s
    } else {
        seq![s[0]] + insert_candidate(x, s.drop_first())
    }
}

/// The candidate set of a sequence of raw lines: every distinct line, in
/// strictly ascending order.
pub open spec fn candidates_of(s: Seq<Seq<char>>) -> Seq<Seq<char>>
    decreases s.len(),
{
    if s.len() == 0 {
        Seq::empty()
    } else {
        insert_candidate(s[0], candidates_of(s.drop_first()))
    }
}

pub proof fn lemma_insert_candidate(x: Seq<char>, s: Seq<Seq<char>>)
    requires
        strictly_sorted(s),
    ensures
        strictly_sorted(insert_candidate(x, s)),
        forall|y: Seq<char>|
            #[trigger] insert_candidate(x, s).contains(y) <==> (y == x || s.contains(y)),
    decreases s.len(),
{
    let r = insert_candidate(x, s);
    if s.len() == 0 {
        assert(r =~= seq![x]);
        assert(r.contains(x)) by { assert(r[0] == x); }
        assert forall|y: Seq<char>| #[trigger] r.contains(y) implies (y == x || s.contains(y)) by {
            let i = choose|i: int| 0 <= i < r.len() && r[i] == y;
            assert(i == 0);
        }
    } else if x == s[0] {
        assert(r == s);
        assert(s.contains(x)) by { assert(s[0] == x); }
    } else if lex_lt(x, s[0]) {
        assert(r =~= seq![x] + s);
        assert forall|i: int, j: int| 0 <= i < j < r.len() implies lex_lt(r[i], r[j]) by {
            if i == 0 {
                assert(r[0] == x);
                assert(r[j] == s[j - 1]);
                if j == 1 {
                } else {
                    assert(lex_lt(s[0], s[j - 1]));
                    lemma_lex_lt_trans(x, s[0], s[j - 1]);
                }
            } else {
                assert(r[i] == s[i - 1] && r[j] == s[j - 1]);
            }
        }
        assert(r.contains(x)) by { assert(r[0] == x); }
        assert forall|y: Seq<char>| #[trigger] r.contains(y) implies (y == x || s.contains(y)) by {
            let i = choose|i: int| 0 <= i < r.len() && r[i] == y;
            if i > 0 {
                assert(s[i - 1] == y);
                assert(s.contains(y));
            }
        }
        assert forall|y: Seq<char>| s.contains(y) implies #[trigger] r.contains(y) by {
            let i = choose|i: int| 0 <= i < s.len() && s[i] == y;
            assert(r[i + 1] == y);
        }
    } else {
        // x belongs after the head: s[0] < x.
        lemma_lex_le_total(x, s[0]);
        assert(lex_lt(s[0], x));
        let tail = s.drop_first();
        assert(strictly_sorted(tail)) by {
            assert forall|i: int, j: int| 0 <= i < j < tail.len() implies lex_lt(
                tail[i],
                tail[j],
            ) by {
                assert(tail[i] == s[i + 1] && tail[j] == s[j + 1]);
            }
        }
        lemma_insert_candidate(x, tail);
        let rt = insert_candidate(x, tail);
        assert(r =~= seq![s[0]] + rt);
        assert forall|i: int, j: int| 0 <= i < j < r.len() implies lex_lt(r[i], r[j]) by {
            if i == 0 {
                assert(r[0] == s[0]);
                assert(r[j] == rt[j - 1]);
                assert(rt.contains(rt[j - 1]));
                if rt[j - 1] == x {
                } else {
                    assert(tail.contains(rt[j - 1]));
                    let k = choose|k: int| 0 <= k < tail.len() && tail[k] == rt[j - 1];
                    assert(tail[k] == s[k + 1]);
                    assert(lex_lt(s[0], s[k + 1]));
                }
            } else {
                assert(r[i] == rt[i - 1] && r[j] == rt[j - 1]);
            }
        }
        assert(r.contains(x)) by {
            assert(rt.contains(x));
            let k = choose|k: int| 0 <= k < rt.len() && rt[k] == x;
            assert(r[k + 1] == x);
        }
        assert forall|y: Seq<char>| #[trigger] r.contains(y) implies (y == x || s.contains(y)) by {
            let i = choose|i: int| 0 <= i < r.len() && r[i] == y;
            if i == 0 {
                assert(s[0] == y);
                assert(s.contains(y));
            } else {
                assert(rt[i - 1] == y);
                assert(rt.contains(y));
                if y != x {
                    assert(tail.contains(y));
                    let k = choose|k: int| 0 <= k < tail.len() && tail[k] == y;
                    assert(s[k + 1] == y);
                    assert(s.contains(y));
                }
            }
        }
        assert forall|y: Seq<char>| s.contains(y) implies #[trigger] r.contains(y) by {
            let i = choose|i: int| 0 <= i < s.len() && s[i] == y;
            if i == 0 {
                assert(r[0] == y);
            } else {
                assert(tail[i - 1] == y);
                assert(tail.contains(y));
                assert(rt.contains(y));
                let k = choose|k: int| 0 <= k < rt.len() && rt[k] == y;
                assert(r[k + 1] == y);
            }
        }
    }
}

/// Law: a candidate set is strictly ascending — sorted, with no duplicate
/// entries — and holds exactly the lines of the raw input, whatever their
/// order or duplication.
pub proof fn lemma_candidates_sorted(s: Seq<Seq<char>>)
    ensures
        strictly_sorted(candidates_of(s)),
        forall|y: Seq<char>| #[trigger] candidates_of(s).contains(y) <==> s.contains(y),
    decreases s.len(),
{
    if s.len() == 0 {
        assert forall|y: Seq<char>| #[trigger] candidates_of(s).contains(y) implies s.contains(
            y,
        ) by {
            let i = choose|i: int| 0 <= i < candidates_of(s).len() && candidates_of(s)[i] == y;
        }
    } else {
        let tail = s.drop_first();
        lemma_candidates_sorted(tail);
        lemma_insert_candidate(s[0], candidates_of(tail));
        assert forall|y: Seq<char>| #[trigger] candidates_of(s).contains(y) implies s.contains(
            y,
        ) by {
            if y == s[0] {
                assert(s.contains(y)) by { assert(s[0] == y); }
            } else {
                assert(tail.contains(y));
                let k = choose|k: int| 0 <= k < tail.len() && tail[k] == y;
                assert(s[k + 1] == y);
                assert(s.contains(y));
            }
        }
        assert forall|y: Seq<char>| s.contains(y) implies #[trigger] candidates_of(s).contains(
            y,
        ) by {
            let i = choose|i: int| 0 <= i < s.len() && s[i] == y;
            if i > 0 {
                assert(tail[i - 1] == y);
                assert(tail.contains(y));
            }
        }
    }
}

/// An already strictly ascending sequence is its own candidate set.
pub proof fn lemma_candidates_of_sorted(s: Seq<Seq<char>>)
    requires
        strictly_sorted(s),
    ensures
        candidates_of(s) == s,
    decreases s.len(),
{
    if s.len() == 0 {
        assert(candidates_of(s) =~= s);
    } else {
        let tail = s.drop_first();
        assert(strictly_sorted(tail)) by {
            assert forall|i: int, j: int| 0 <= i < j < tail.len() implies lex_lt(
                tail[i],
                tail[j],
            ) by {
                assert(tail[i] == s[i + 1] && tail[j] == s[j + 1]);
            }
        }
        lemma_candidates_of_sorted(tail);
        if tail.len() == 0 {
            assert(candidates_of(s) =~= seq![s[0]]);
            assert(s =~= seq![s[0]]);
        } else {
            assert(tail[0] == s[1]);
            assert(lex_lt(s[0], tail[0]));
            assert(candidates_of(s) == seq![s[0]] + tail);
            assert(seq![s[0]] + tail =~= s);
        }
    }
}

/// Law: building a candidate set is idempotent — normalizing an already
/// normalized set returns it unchanged, so identical raw inputs always yield
/// identical candidate sets.
pub proof fn lemma_candidates_idempotent(s: Seq<Seq<char>>)
    ensures
        candidates_of(candidates_of(s)) == candidates_of(s),
{
    lemma_candidates_sorted(s);
    lemma_candidates_of_sorted(candidates_of(s));
}

/// Pushing a string onto a vector pushes its view onto the deep view.
pub proof fn lemma_deep_view_push(pre: Vec<String>, post: Vec<String>, x: String)
    requires
        post@ == pre@.push(x),
    ensures
        post.deep_view() == pre.deep_view().push(x@),
{
    assert forall|k: int| 0 <= k < post@.len() implies #[trigger] post.deep_view()[k]
        == pre.deep_view().push(x@)[k] by {
        if k < pre@.len() {
            assert(post@[k] == pre@[k]);
        } else {
            assert(post@[k] == x);
        }
    }
    assert(post.deep_view() =~= pre.deep_view().push(x@));
}

/// Compares two strings in code-point lexicographic order.
pub fn str_lex_le(a: &str, b: &str) -> (r: bool)
    ensures
        r == lex_le(a@, b@),
{
    let alen = a.unicode_len();
    let blen = b.unicode_len();
    let mut i: usize = 0;
    proof {
        assert(a@.skip(0) =~= a@);
        assert(b@.skip(0) =~= b@);
    }
    loop
        invariant
            i <= alen,
            i <= blen,
            alen == a@.len(),
            blen == b@.len(),
            lex_le(a@, b@) == lex_le(a@.skip(i as int), b@.skip(i as int)),
        decreases alen - i,
    {
        let ghost sa = a@.skip(i as int);
        let ghost sb = b@.skip(i as int);
        if i == alen {
            proof {
                assert(sa.len() == 0);
            }
            return true;
        }
        if i == blen {
            proof {
                assert(sb.len() == 0);
                assert(sa.len() > 0);
            }
            return false;
        }
        let ca = a.get_char(i);
        let cb = b.get_char(i);
        proof {
            assert(sa[0] == a@[i as int]);
            assert(sb[0] == b@[i as int]);
        }
        if ca == cb {
            proof {
                assert(sa.drop_first() =~= a@.skip(i as int + 1));
                assert(sb.drop_first() =~= b@.skip(i as int + 1));
            }
            i = i + 1;
        } else {
            return (ca as u32) < (cb as u32);
        }
    }
}

/// Places `x` at its position in the vector so that `insert_candidate`
/// describes the result exactly; a vector that already holds `x` is left
/// unchanged.
fn insert_into_sorted(v: &mut Vec<String>, x: String)
    ensures
        final(v).deep_view() == insert_candidate(x@, old(v).deep_view()),
{
    let ghost dv = old(v).deep_view();
    let ghost xs = x@;
    let mut i: usize = 0;
    proof {
        assert(dv.take(0) =~= Seq::<Seq<char>>::empty());
        assert(dv.skip(0) =~= dv);
        assert(insert_candidate(xs, dv) =~= dv.take(0) + insert_candidate(xs, dv.skip(0)));
    }
    loop
        invariant
            i as int <= dv.len(),
            dv == old(v).deep_view(),
            v.deep_view() == dv,
            v@.len() == dv.len(),
            xs == x@,
            insert_candidate(xs, dv) == dv.take(i as int) + insert_candidate(
                xs,
                dv.skip(i as int),
            ),
        decreases dv.len() - i,
    {
        if i == v.len() {
            proof {
                assert(dv.skip(i as int) =~= Seq::<Seq<char>>::empty());
                assert(insert_candidate(xs, dv.skip(i as int)) =~= seq![xs]);
                assert(insert_candidate(xs, dv) =~= dv.push(xs));
            }
            let ghost pre = *v;
            v.push(x);
            proof {
                lemma_deep_view_push(pre, *v, x);
            }
            return;
        }
        let ghost si = dv.skip(i as int);
        proof {
            assert(si[0] == dv[i as int]);
            assert(dv[i as int] == v@[i as int]@);
        }
        let cur: &String = &v[i];
        if *cur == x {
            proof {
                assert(dv[i as int] == xs);
                assert(insert_candidate(xs, si) == si);
                assert(insert_candidate(xs, dv) =~= dv);
            }
            return;
        }
        if str_lex_le(x.as_str(), cur.as_str()) {
            proof {
                assert(xs != dv[i as int]);
                assert(lex_lt(xs, si[0]));
                assert(insert_candidate(xs, si) == seq![xs] + si);
            }
            let ghost vs0 = v@;
            v.insert(i, x);
            proof {
                let target = dv.take(i as int) + (seq![xs] + dv.skip(i as int));
                assert forall|k: int| 0 <= k < v@.len() implies #[trigger] v.deep_view()[k]
                    == target[k] by {
                    if k < i as int {
                        assert(v@[k] == vs0[k]);
                        assert(dv[k] == vs0[k]@);
                    } else if k == i as int {
                        assert(v@[k] == x);
                    } else {
                        assert(v@[k] == vs0[k - 1]);
                        assert(dv[k - 1] == vs0[k - 1]@);
                    }
                }
                assert(v.deep_view() =~= target);
            }
            return;
        }
        proof {
            lemma_lex_le_total(xs, dv[i as int]);
            assert(lex_le(dv[i as int], xs));
            assert(xs != dv[i as int]);
            assert(!lex_lt(xs, si[0]));
            assert(si.drop_first() =~= dv.skip(i as int + 1));
            assert(insert_candidate(xs, si) == seq![si[0]] + insert_candidate(
                xs,
                dv.skip(i as int + 1),
            ));
            assert(dv.take(i as int) + insert_candidate(xs, si) =~= dv.take(i as int + 1)
                + insert_candidate(xs, dv.skip(i as int + 1)));
        }
        i = i + 1;
    }
}

/// Sorts raw history lines into code-point order and removes duplicates:
/// the single candidate-normalization step shared by every history-sourced
/// trailer.
pub fn sort_and_dedup(values: Vec<String>) -> (r: Vec<String>)
    ensures
        r.deep_view() == candidates_of(values.deep_view()),
        strictly_sorted(r.deep_view()),
{
    let ghost dv = values.deep_view();
    let mut r: Vec<String> = Vec::new();
    let mut i: usize = values.len();
    proof {
        assert(dv.skip(i as int) =~= Seq::<Seq<char>>::empty());
        assert(r.deep_view() =~= Seq::<Seq<char>>::empty());
    }
    while i > 0
        invariant
            i as int <= dv.len(),
            values.deep_view() == dv,
            values@.len() == dv.len(),
            r.deep_view() == candidates_of(dv.skip(i as int)),
        decreases i,
    {
        i = i - 1;
        let x = values[i].clone();
        proof {
            assert(x@ == values@[i as int]@);
            assert(dv[i as int] == values@[i as int]@);
            let si = dv.skip(i as int);
            assert(si[0] == dv[i as int]);
            assert(si.drop_first() =~= dv.skip(i as int + 1));
            assert(candidates_of(si) == insert_candidate(
                dv[i as int],
                candidates_of(dv.skip(i as int + 1)),
            ));
        }
        insert_into_sorted(&mut r, x);
    }
    proof {
        assert(dv.skip(0) =~= dv);
        lemma_candidates_sorted(dv);
    }
    r
}

} // verus!

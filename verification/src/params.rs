//! String-keyed parameter maps kept as a key-ordered list of pairs: the
//! interpolation values of localized warnings and errors. Keys are ordered
//! by code point, the order of `String`'s `Ord`, so the list reads exactly
//! like the ordered map it stands for.

use vstd::prelude::*;

use crate::chars::to_chars;

verus! {

/// Code-point order of two strings (the order of `String`'s `Ord`, which
/// compares UTF-8 bytes).
pub open spec fn str_lt(a: Seq<char>, b: Seq<char>) -> bool
    decreases a.len(),
{
    if a.len() == 0 {
        b.len() > 0
    } else if b.len() == 0 {
        false
    } else if a[0] != b[0] {
        a[0] < b[0]
    } else {
        str_lt(a.drop_first(), b.drop_first())
    }
}

pub type ParamView = Seq<(Seq<char>, Seq<char>)>;

pub open spec fn params_view(v: Seq<(String, String)>) -> ParamView {
    v.map_values(|p: (String, String)| (p.0@, p.1@))
}

/// Keys strictly increasing: a map kept in key order.
pub open spec fn params_sorted(ps: ParamView) -> bool {
    forall|i: int, j: int| 0 <= i < j < ps.len() ==> str_lt(#[trigger] ps[i].0, #[trigger] ps[j].0)
}

/// `ps` with `k` set to `v`: replacing the entry of `k`, or inserting a new
/// one at its place in key order.
pub open spec fn insert_param(ps: ParamView, k: Seq<char>, v: Seq<char>) -> ParamView
    decreases ps.len(),
{
    if ps.len() == 0 {
        seq![(k, v)]
    } else if ps[0].0 == k {
        seq![(k, v)] + ps.drop_first()
    } else if str_lt(k, ps[0].0) {
        seq![(k, v)] + ps
    } else {
        seq![ps[0]] + insert_param(ps.drop_first(), k, v)
    }
}

/// The value `ps` holds for `k`.
pub open spec fn lookup_param(ps: ParamView, k: Seq<char>) -> Option<Seq<char>>
    decreases ps.len(),
{
    if ps.len() == 0 {
        None
    } else if ps[0].0 == k {
        Some(ps[0].1)
    } else {
        lookup_param(ps.drop_first(), k)
    }
}


/// Set `key` to `value` in the key-ordered list `ps` (see [`insert_param`]).
pub fn set_param(ps: &mut Vec<(String, String)>, key: String, value: String)
    requires
        params_sorted(params_view(old(ps)@)),
    ensures
        params_sorted(params_view(final(ps)@)),
        params_view(final(ps)@) == insert_param(params_view(old(ps)@), key@, value@),
{
    let ghost pv = params_view(ps@);
    let kc = to_chars(key.as_str());
    let mut i: usize = 0;
    let mut done = false;
    while !done && i < ps.len()
        invariant
            i <= ps.len(),
            pv == params_view(ps@),
            params_sorted(pv),
            kc@ == key@,
            forall|j: int| 0 <= j < i ==> str_lt(#[trigger] pv[j].0, key@),
            done ==> i < pv.len() && !str_lt(pv[i as int].0, key@),
        decreases ps.len() - i + (if done {
            0int
        } else {
            1int
        }),
    {
        let pc = to_chars(ps[i].0.as_str());
        if lt_chars(pc.as_slice(), kc.as_slice()) {
            i = i + 1;
        } else {
            done = true;
        }
    }
    let ghost pos = i as int;
    let mut found = false;
    if i < ps.len() {
        let pc = to_chars(ps[i].0.as_str());
        found = eq_chars(pc.as_slice(), kc.as_slice());
    }
    proof {
        lemma_insert_at(pv, key@, value@, pos);
    }
    if found {
        ps.set(i, (key, value));
        proof {
            assert(params_view(ps@) =~= pv.take(pos) + seq![(key@, value@)] + pv.skip(pos + 1));
        }
    } else {
        ps.insert(i, (key, value));
        proof {
            assert(params_view(ps@) =~= pv.take(pos) + seq![(key@, value@)] + pv.skip(pos));
        }
    }
    proof {
        lemma_insert_sorted(pv, key@, value@);
    }
}

pub(crate) fn eq_chars(a: &[char], b: &[char]) -> (r: bool)
    ensures
        r == (a@ == b@),
{
    if a.len() != b.len() {
        return false;
    }
    let mut i: usize = 0;
    while i < a.len()
        invariant
            i <= a.len() == b.len(),
            forall|j: int| 0 <= j < i ==> a@[j] == b@[j],
        decreases a.len() - i,
    {
        if a[i] != b[i] {
            return false;
        }
        i = i + 1;
    }
    proof {
        assert(a@ =~= b@);
    }
    true
}

/// Whether `a` sorts before `b` (see [`str_lt`]).
fn lt_chars(a: &[char], b: &[char]) -> (r: bool)
    ensures
        r == str_lt(a@, b@),
{
    let mut i: usize = 0;
    proof {
        assert(a@.skip(0) =~= a@);
        assert(b@.skip(0) =~= b@);
    }
    while i < a.len() && i < b.len() && a[i] == b[i]
        invariant
            i <= a.len(),
            i <= b.len(),
            str_lt(a@, b@) == str_lt(a@.skip(i as int), b@.skip(i as int)),
        decreases a.len() - i,
    {
        proof {
            let sa = a@.skip(i as int);
            let sb = b@.skip(i as int);
            assert(sa.drop_first() =~= a@.skip(i + 1));
            assert(sb.drop_first() =~= b@.skip(i + 1));
        }
        i = i + 1;
    }
    let r = if i == a.len() {
        i < b.len()
    } else if i == b.len() {
        false
    } else {
        a[i] < b[i]
    };
    proof {
        let sa = a@.skip(i as int);
        let sb = b@.skip(i as int);
        if i < a.len() {
            assert(sa[0] == a@[i as int]);
        }
        if i < b.len() {
            assert(sb[0] == b@[i as int]);
        }
    }
    r
}

proof fn lemma_str_lt_irrefl(a: Seq<char>)
    ensures
        !str_lt(a, a),
    decreases a.len(),
{
    if a.len() > 0 {
        lemma_str_lt_irrefl(a.drop_first());
    }
}

proof fn lemma_str_lt_trans(a: Seq<char>, b: Seq<char>, c: Seq<char>)
    requires
        str_lt(a, b),
        str_lt(b, c),
    ensures
        str_lt(a, c),
    decreases a.len(),
{
    if a.len() > 0 && b.len() > 0 && c.len() > 0 && a[0] == b[0] && b[0] == c[0] {
        lemma_str_lt_trans(a.drop_first(), b.drop_first(), c.drop_first());
    }
}

proof fn lemma_str_lt_total(a: Seq<char>, b: Seq<char>)
    ensures
        a == b || str_lt(a, b) || str_lt(b, a),
    decreases a.len(),
{
    if a.len() > 0 && b.len() > 0 && a[0] == b[0] {
        lemma_str_lt_total(a.drop_first(), b.drop_first());
        if a.drop_first() == b.drop_first() {
            assert(a =~= seq![a[0]] + a.drop_first());
            assert(b =~= seq![b[0]] + b.drop_first());
        }
    }
    if a.len() == 0 && b.len() == 0 {
        assert(a =~= b);
    }
}

/// Where `insert_param` puts `k` in a sorted map: after the keys below it,
/// replacing an equal key.
proof fn lemma_insert_at(ps: ParamView, k: Seq<char>, v: Seq<char>, pos: int)
    requires
        params_sorted(ps),
        0 <= pos <= ps.len(),
        forall|j: int| 0 <= j < pos ==> str_lt(#[trigger] ps[j].0, k),
        pos < ps.len() ==> !str_lt(ps[pos].0, k),
    ensures
        pos < ps.len() && ps[pos].0 == k ==> insert_param(ps, k, v) == ps.take(pos) + seq![(k, v)]
            + ps.skip(pos + 1),
        !(pos < ps.len() && ps[pos].0 == k) ==> insert_param(ps, k, v) == ps.take(pos) + seq![
            (k, v),
        ] + ps.skip(pos),
    decreases pos,
{
    if pos == 0 {
        if ps.len() > 0 {
            if ps[0].0 != k {
                lemma_str_lt_total(k, ps[0].0);
            }
            assert(ps.take(0) + seq![(k, v)] + ps.skip(1) =~= seq![(k, v)] + ps.drop_first());
        }
        assert(ps.take(0) + seq![(k, v)] + ps.skip(0) =~= seq![(k, v)] + ps);
    } else {
        let t = ps.drop_first();
        assert forall|i: int, j: int| 0 <= i < j < t.len() implies str_lt(
            #[trigger] t[i].0,
            #[trigger] t[j].0,
        ) by {
            assert(t[i] == ps[i + 1] && t[j] == ps[j + 1]);
        }
        assert forall|j: int| 0 <= j < pos - 1 implies str_lt(#[trigger] t[j].0, k) by {
            assert(t[j] == ps[j + 1]);
        }
        lemma_insert_at(t, k, v, pos - 1);
        lemma_str_lt_irrefl(k);
        assert(str_lt(ps[0].0, k));
        if str_lt(k, ps[0].0) {
            lemma_str_lt_trans(k, ps[0].0, k);
        }
        assert(ps.take(pos) =~= seq![ps[0]] + t.take(pos - 1));
        assert(ps.skip(pos) =~= t.skip(pos - 1));
        if pos < ps.len() {
            assert(ps.skip(pos + 1) =~= t.skip(pos));
        }
    }
}

/// Setting a key keeps the map in key order.
proof fn lemma_insert_sorted(ps: ParamView, k: Seq<char>, v: Seq<char>)
    requires
        params_sorted(ps),
    ensures
        params_sorted(insert_param(ps, k, v)),
        forall|j: int| 0 <= j < insert_param(ps, k, v).len() ==> (#[trigger] insert_param(
            ps,
            k,
            v,
        )[j].0 == k || exists|i: int| 0 <= i < ps.len() && ps[i].0 == insert_param(ps, k, v)[j].0),
    decreases ps.len(),
{
    let r = insert_param(ps, k, v);
    if ps.len() == 0 {
    } else if ps[0].0 == k {
        assert forall|i: int, j: int| 0 <= i < j < r.len() implies str_lt(
            #[trigger] r[i].0,
            #[trigger] r[j].0,
        ) by {
            assert(r[j] == ps[j]);
            if i > 0 {
                assert(r[i] == ps[i]);
            }
        }
        assert forall|j: int| 0 <= j < r.len() implies (#[trigger] r[j].0 == k || exists|i: int|
            0 <= i < ps.len() && ps[i].0 == r[j].0) by {
            if j > 0 {
                assert(r[j] == ps[j]);
            }
        }
    } else if str_lt(k, ps[0].0) {
        assert forall|i: int, j: int| 0 <= i < j < r.len() implies str_lt(
            #[trigger] r[i].0,
            #[trigger] r[j].0,
        ) by {
            assert(r[j] == ps[j - 1]);
            if i > 0 {
                assert(r[i] == ps[i - 1]);
            } else if j - 1 > 0 {
                lemma_str_lt_trans(k, ps[0].0, ps[j - 1].0);
            }
        }
        assert forall|j: int| 0 <= j < r.len() implies (#[trigger] r[j].0 == k || exists|i: int|
            0 <= i < ps.len() && ps[i].0 == r[j].0) by {
            if j > 0 {
                assert(r[j] == ps[j - 1]);
            }
        }
    } else {
        let t = ps.drop_first();
        assert forall|i: int, j: int| 0 <= i < j < t.len() implies str_lt(
            #[trigger] t[i].0,
            #[trigger] t[j].0,
        ) by {
            assert(t[i] == ps[i + 1] && t[j] == ps[j + 1]);
        }
        lemma_insert_sorted(t, k, v);
        lemma_str_lt_total(k, ps[0].0);
        let rt = insert_param(t, k, v);
        assert(r == seq![ps[0]] + rt);
        assert forall|i: int, j: int| 0 <= i < j < r.len() implies str_lt(
            #[trigger] r[i].0,
            #[trigger] r[j].0,
        ) by {
            assert(r[j] == rt[j - 1]);
            if i > 0 {
                assert(r[i] == rt[i - 1]);
            } else {
                assert(r[0] == ps[0]);
                let e = rt[j - 1].0;
                if e != k {
                    let w = choose|w: int| 0 <= w < t.len() && t[w].0 == e;
                    assert(t[w] == ps[w + 1]);
                }
            }
        }
        assert forall|j: int| 0 <= j < r.len() implies (#[trigger] r[j].0 == k || exists|i: int|
            0 <= i < ps.len() && ps[i].0 == r[j].0) by {
            if j > 0 {
                assert(r[j] == rt[j - 1]);
                let e = rt[j - 1].0;
                if e != k {
                    let w = choose|w: int| 0 <= w < t.len() && t[w].0 == e;
                    assert(ps[w + 1].0 == e);
                }
            } else {
                assert(ps[0].0 == r[0].0);
            }
        }
    }
}

/// Law: after setting `k` to `v`, looking `k` up gives `v`, and every other
/// key keeps its value.
pub proof fn lemma_param_read_after_write(ps: ParamView, k: Seq<char>, v: Seq<char>, o: Seq<char>)
    ensures
        lookup_param(insert_param(ps, k, v), k) == Some(v),
        o != k ==> lookup_param(insert_param(ps, k, v), o) == lookup_param(ps, o),
    decreases ps.len(),
{
    let r = insert_param(ps, k, v);
    if ps.len() == 0 {
        assert(r.drop_first() =~= ps);
    } else if ps[0].0 == k {
        assert(r.drop_first() =~= ps.drop_first());
    } else if str_lt(k, ps[0].0) {
        assert(r.drop_first() =~= ps);
    } else {
        lemma_param_read_after_write(ps.drop_first(), k, v, o);
        assert(r.drop_first() =~= insert_param(ps.drop_first(), k, v));
    }
}

} // verus!

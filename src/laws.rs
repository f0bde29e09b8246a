//! Laws that relate the operations of the store.
use vstd::prelude::*;

use crate::properties::{apply_lines, lists, render, text_lines};
use crate::text::{
    index_of, is_trimmed, is_ws, join_with, line_of, parse_entry, split_on, starts_comment, trim,
    trim_end, trim_start,
};

verus! {

/// `split_on` always yields at least one piece.
proof fn lemma_split_nonempty(s: Seq<char>, c: char)
    ensures
        split_on(s, c).len() >= 1,
    decreases s.len(),
{
    if s.len() > 0 {
        lemma_split_nonempty(s.drop_first(), c);
    }
}

/// A text without the separator is one piece.
pub proof fn lemma_split_without_sep(s: Seq<char>, c: char)
    requires
        !s.contains(c),
    ensures
        split_on(s, c) == seq![s],
    decreases s.len(),
{
    if s.len() > 0 {
        assert(!s.drop_first().contains(c)) by {
            if s.drop_first().contains(c) {
                let j = choose|j: int| 0 <= j < s.drop_first().len() && s.drop_first()[j] == c;
                assert(s[j + 1] == c);
            }
        }
        lemma_split_without_sep(s.drop_first(), c);
        assert(s[0] != c);
        assert(seq![s[0]] + s.drop_first() =~= s);
        assert(seq![s[0]] + split_on(s.drop_first(), c)[0] =~= s);
        assert(split_on(s, c) =~= seq![s]);
    } else {
        assert(s =~= Seq::<char>::empty());
    }
}

/// Cutting `a`, a separator and `b` gives the pieces of `a` then those of `b`.
pub proof fn lemma_split_at_sep(a: Seq<char>, b: Seq<char>, c: char)
    ensures
        split_on(a + seq![c] + b, c) == split_on(a, c) + split_on(b, c),
    decreases a.len(),
{
    let s = a + seq![c] + b;
    if a.len() == 0 {
        assert(s.drop_first() =~= b);
        assert(split_on(a, c) =~= seq![Seq::empty()]);
    } else {
        assert(s.drop_first() =~= a.drop_first() + seq![c] + b);
        lemma_split_at_sep(a.drop_first(), b, c);
        lemma_split_nonempty(a.drop_first(), c);
        let ra = split_on(a.drop_first(), c);
        let rb = split_on(b, c);
        if a[0] == c {
            assert(split_on(s, c) =~= split_on(a, c) + rb);
        } else {
            assert((ra + rb).update(0, seq![a[0]] + (ra + rb)[0]) =~= ra.update(
                0,
                seq![a[0]] + ra[0],
            ) + rb);
        }
    }
}

/// Values without `,` joined by `,` and cut at each `,` come back as they were.
pub proof fn lemma_join_then_split(xs: Seq<Seq<char>>)
    requires
        xs.len() > 0,
        forall|i: int| 0 <= i < xs.len() ==> !(#[trigger] xs[i]).contains(','),
    ensures
        split_on(join_with(xs, seq![',']), ',') == xs,
    decreases xs.len(),
{
    if xs.len() == 1 {
        lemma_split_without_sep(xs[0], ',');
        assert(seq![xs[0]] =~= xs);
    } else {
        let init = xs.drop_last();
        lemma_join_then_split(init);
        lemma_split_at_sep(join_with(init, seq![',']), xs.last(), ',');
        lemma_split_without_sep(xs.last(), ',');
        assert(init + seq![xs.last()] =~= xs);
    }
}

/// A list stored under a key reads back as the same list, when it has at least
/// one element and none holds a `,`.
pub proof fn lemma_list_round_trip(m: Map<Seq<char>, Seq<char>>, key: Seq<char>, xs: Seq<Seq<char>>)
    requires
        xs.len() > 0,
        forall|i: int| 0 <= i < xs.len() ==> !(#[trigger] xs[i]).contains(','),
    ensures
        m.insert(key, join_with(xs, seq![','])).contains_key(key),
        split_on(m.insert(key, join_with(xs, seq![',']))[key], ',') == xs,
{
    lemma_join_then_split(xs);
}

/// Setting a key twice leaves the second value, as if only it had been set.
pub proof fn lemma_overwrite(
    m: Map<Seq<char>, Seq<char>>,
    key: Seq<char>,
    v1: Seq<char>,
    v2: Seq<char>,
)
    ensures
        m.insert(key, v1).insert(key, v2) == m.insert(key, v2),
        m.insert(key, v1).insert(key, v2)[key] == v2,
        m.insert(key, v1).insert(key, v2).dom() == m.dom().insert(key),
{
    assert(m.insert(key, v1).insert(key, v2) =~= m.insert(key, v2));
}

/// Sets of two distinct keys do not disturb each other: either order gives the
/// same store, holding both.
pub proof fn lemma_distinct_sets_commute(
    m: Map<Seq<char>, Seq<char>>,
    k1: Seq<char>,
    v1: Seq<char>,
    k2: Seq<char>,
    v2: Seq<char>,
)
    requires
        k1 != k2,
    ensures
        m.insert(k1, v1).insert(k2, v2) == m.insert(k2, v2).insert(k1, v1),
        m.insert(k1, v1).insert(k2, v2)[k1] == v1,
        m.insert(k1, v1).insert(k2, v2)[k2] == v2,
{
    assert(m.insert(k1, v1).insert(k2, v2) =~= m.insert(k2, v2).insert(k1, v1));
}

/// Leading white space does not change what `trim_start` leaves.
proof fn lemma_trim_start_skips(w: Seq<char>, s: Seq<char>)
    requires
        forall|i: int| 0 <= i < w.len() ==> is_ws(#[trigger] w[i]),
    ensures
        trim_start(w + s) == trim_start(s),
    decreases w.len(),
{
    if w.len() > 0 {
        assert((w + s)[0] == w[0]);
        assert((w + s).drop_first() =~= w.drop_first() + s);
        lemma_trim_start_skips(w.drop_first(), s);
    } else {
        assert(w + s =~= s);
    }
}

/// Trailing white space does not change what `trim_end` leaves.
proof fn lemma_trim_end_skips(s: Seq<char>, w: Seq<char>)
    requires
        forall|i: int| 0 <= i < w.len() ==> is_ws(#[trigger] w[i]),
    ensures
        trim_end(s + w) == trim_end(s),
    decreases w.len(),
{
    if w.len() > 0 {
        assert((s + w).last() == w.last());
        assert((s + w).drop_last() =~= s + w.drop_last());
        lemma_trim_end_skips(s, w.drop_last());
    } else {
        assert(s + w =~= s);
    }
}

/// Once `s` holds something other than white space, `trim_start` stops inside it.
proof fn lemma_trim_start_append(s: Seq<char>, y: Seq<char>, p: int)
    requires
        0 <= p < s.len(),
        !is_ws(s[p]),
    ensures
        trim_start(s + y) == trim_start(s) + y,
    decreases s.len(),
{
    assert((s + y)[0] == s[0]);
    if is_ws(s[0]) {
        assert((s + y).drop_first() =~= s.drop_first() + y);
        lemma_trim_start_append(s.drop_first(), y, p - 1);
    }
}

/// The first `c` of `a`, `c`, `b`, when `a` has none, is right after `a`.
proof fn lemma_index_after(a: Seq<char>, b: Seq<char>, c: char)
    requires
        !a.contains(c),
    ensures
        index_of(a + seq![c] + b, c) == a.len(),
    decreases a.len(),
{
    let s = a + seq![c] + b;
    if a.len() > 0 {
        assert(s[0] == a[0]);
        assert(s.drop_first() =~= a.drop_first() + seq![c] + b);
        assert(!a.drop_first().contains(c)) by {
            if a.drop_first().contains(c) {
                let j = choose|j: int| 0 <= j < a.drop_first().len() && a.drop_first()[j] == c;
                assert(a[j + 1] == c);
            }
        }
        lemma_index_after(a.drop_first(), b, c);
    } else {
        assert(s[0] == c);
    }
}

/// The line that `line_of` writes for a key and a value reads back as them,
/// when both are trimmed, the key holds no `=` and does not begin a comment.
pub proof fn lemma_parse_formatted(k: Seq<char>, v: Seq<char>)
    requires
        is_trimmed(k),
        is_trimmed(v),
        !k.contains('='),
        !starts_comment(k),
    ensures
        parse_entry(k + seq![' ', '=', ' '] + v) == Some((k, v)),
{
    let s = k + seq![' ', '=', ' '] + v;
    let e: Seq<char> = seq!['='];
    let sp: Seq<char> = seq![' '];
    let k1 = if k.len() > 0 {
        k + sp
    } else {
        Seq::empty()
    };
    let v1 = if v.len() > 0 {
        sp + v
    } else {
        Seq::empty()
    };
    let a = k + seq![' ', '='];
    assert(s =~= a + (sp + v));
    assert(a[k.len() as int + 1] == '=');
    lemma_trim_start_append(a, sp + v, k.len() as int + 1);
    if k.len() > 0 {
        assert(a[0] == k[0]);
        assert(a =~= k1 + e);
    } else {
        assert(a =~= sp + e);
        lemma_trim_start_skips(sp, e);
        assert(trim_start(e) == e);
        assert(a =~= sp + (k1 + e));
    }
    let u = k1 + e + sp + v;
    assert(trim_start(s) == u) by {
        assert(trim_start(a) + (sp + v) =~= u);
    }
    let t = k1 + e + v1;
    if v.len() > 0 {
        assert(u.last() == v.last());
        assert(u =~= t);
    } else {
        assert(u =~= (k1 + e) + sp);
        lemma_trim_end_skips(k1 + e, sp);
        assert((k1 + e).last() == '=');
        assert(k1 + e =~= t);
    }
    assert(trim(s) == t);
    assert(!k1.contains('=')) by {
        if k1.contains('=') {
            let j = choose|j: int| 0 <= j < k1.len() && k1[j] == '=';
            assert(k[j] == '=');
        }
    }
    lemma_index_after(k1, v1, '=');
    assert(t.subrange(0, k1.len() as int) =~= k1);
    assert(t.subrange(k1.len() as int + 1, t.len() as int) =~= v1);
    if k.len() > 0 {
        assert(k1[0] == k[0]);
        assert(trim_start(k1) == k1);
        assert(k1.drop_last() =~= k);
        assert(trim_end(k1) == trim_end(k));
    } else {
        assert(trim(k1) == k1);
    }
    assert(trim(k1) == k);
    if v.len() > 0 {
        assert(v1.drop_first() =~= v);
        assert(trim_start(v1) == trim_start(v));
        assert(trim_start(v) == v);
    }
    assert(trim(v1) == v);
    assert(t[0] == (if k.len() > 0 { k[0] } else { '=' }));
    assert(!starts_comment(t)) by {
        if k.len() > 0 {
            assert(t[1] == (if k.len() > 1 { k[1] } else { ' ' }));
            if seq!['#'].is_prefix_of(t) {
                assert(t.subrange(0, 1)[0] == t[0]);
                assert(seq!['#'] =~= k.subrange(0, 1));
            }
            if seq!['/', '/'].is_prefix_of(t) {
                assert(t.subrange(0, 2)[1] == t[1]);
                assert(seq!['/', '/'] =~= k.subrange(0, 2));
            }
            if seq!['/', '*'].is_prefix_of(t) {
                assert(t.subrange(0, 2)[1] == t[1]);
                assert(seq!['/', '*'] =~= k.subrange(0, 2));
            }
        } else {
            if seq!['#'].is_prefix_of(t) {
                assert(t.subrange(0, 1)[0] == t[0]);
            }
            if seq!['/', '/'].is_prefix_of(t) {
                assert(t.subrange(0, 2)[0] == t[0]);
            }
            if seq!['/', '*'].is_prefix_of(t) {
                assert(t.subrange(0, 2)[0] == t[0]);
            }
        }
    }
}

/// The lines of `ps` as `render` writes them, without their newlines.
pub open spec fn bodies(ps: Seq<(Seq<char>, Seq<char>)>) -> Seq<Seq<char>> {
    ps.map_values(|p: (Seq<char>, Seq<char>)| p.0 + seq![' ', '=', ' '] + p.1)
}

/// A key or a value that survives being written and read back.
pub open spec fn is_plain(s: Seq<char>) -> bool {
    is_trimmed(s) && !s.contains('\n') && !s.contains('=')
}

/// Cutting the text of `ps`, then `tail`, at newlines gives one piece per property
/// and `tail`.
proof fn lemma_split_render(ps: Seq<(Seq<char>, Seq<char>)>, tail: Seq<char>)
    requires
        forall|i: int|
            0 <= i < ps.len() ==> !(#[trigger] ps[i]).0.contains('\n') && !ps[i].1.contains(
                '\n',
            ),
        !tail.contains('\n'),
    ensures
        split_on(render(ps) + tail, '\n') == bodies(ps).push(tail),
    decreases ps.len(),
{
    if ps.len() == 0 {
        lemma_split_without_sep(tail, '\n');
        assert(render(ps) + tail =~= tail);
        assert(bodies(ps).push(tail) =~= seq![tail]);
    } else {
        let init = ps.drop_last();
        let p = ps.last();
        let b = p.0 + seq![' ', '=', ' '] + p.1;
        assert(ps[ps.len() - 1] == p);
        assert(!b.contains('\n')) by {
            if b.contains('\n') {
                let j = choose|j: int| 0 <= j < b.len() && b[j] == '\n';
                if j < p.0.len() {
                    assert(p.0[j] == '\n');
                } else if j >= p.0.len() + 3 {
                    assert(p.1[j - p.0.len() - 3] == '\n');
                }
            }
        }
        assert(render(ps) + tail =~= (render(init) + b) + seq!['\n'] + tail);
        lemma_split_at_sep(render(init) + b, tail, '\n');
        assert forall|i: int| 0 <= i < init.len() implies !(#[trigger] init[i]).0.contains('\n')
            && !init[i].1.contains('\n') by {
            assert(init[i] == ps[i]);
        }
        lemma_split_render(init, b);
        lemma_split_without_sep(tail, '\n');
        assert(bodies(init).push(b) + seq![tail] =~= bodies(ps).push(tail));
    }
}

/// Reading the lines of `ps` into an empty store gives a store that `ps` lists.
proof fn lemma_apply_bodies(ps: Seq<(Seq<char>, Seq<char>)>)
    requires
        forall|i: int, j: int| 0 <= i < j < ps.len() ==> ps[i].0 != ps[j].0,
        forall|i: int| 0 <= i < ps.len() ==> parse_entry(#[trigger] bodies(ps)[i]) == Some(ps[i]),
    ensures
        lists(ps, apply_lines(Map::empty(), bodies(ps))),
    decreases ps.len(),
{
    if ps.len() > 0 {
        let init = ps.drop_last();
        let n = ps.len() - 1;
        assert(bodies(ps).drop_last() =~= bodies(init));
        assert forall|i: int| 0 <= i < init.len() implies parse_entry(
            #[trigger] bodies(init)[i],
        ) == Some(init[i]) by {
            assert(bodies(init)[i] == bodies(ps)[i]);
        }
        lemma_apply_bodies(init);
        assert(parse_entry(bodies(ps)[n]) == Some(ps[n]));
        let before = apply_lines(Map::empty(), bodies(init));
        let after = apply_lines(Map::empty(), bodies(ps));
        assert(after == before.insert(ps[n].0, ps[n].1));
        assert forall|i: int| 0 <= i < ps.len() implies #[trigger] after.contains_key(ps[i].0)
            && after[ps[i].0] == ps[i].1 by {
            if i < n {
                assert(init[i] == ps[i]);
                assert(before.contains_key(init[i].0));
            }
        }
        assert forall|k: Seq<char>| after.contains_key(k) implies exists|i: int|
            0 <= i < ps.len() && ps[i].0 == k by {
            if k == ps[n].0 {
            } else {
                assert(before.contains_key(k));
                let i = choose|i: int| 0 <= i < init.len() && init[i].0 == k;
                assert(ps[i].0 == k);
            }
        }
    }
}

/// Writing a store and reading the text into an empty store gives back the same
/// properties, when every key and value is trimmed and holds no `=` and no
/// newline, and no key begins a comment.
pub proof fn lemma_store_then_load(m: Map<Seq<char>, Seq<char>>, ps: Seq<(Seq<char>, Seq<char>)>)
    requires
        lists(ps, m),
        forall|k: Seq<char>|
            #[trigger] m.contains_key(k) ==> is_plain(k) && is_plain(m[k]) && !starts_comment(k),
    ensures
        apply_lines(Map::empty(), text_lines(render(ps))) == m,
{
    assert forall|i: int| 0 <= i < ps.len() implies parse_entry(#[trigger] bodies(ps)[i]) == Some(
        ps[i],
    ) by {
        assert(m.contains_key(ps[i].0));
        lemma_parse_formatted(ps[i].0, ps[i].1);
    }
    assert forall|i: int| 0 <= i < ps.len() implies !(#[trigger] ps[i]).0.contains('\n')
        && !ps[i].1.contains('\n') by {
        assert(m.contains_key(ps[i].0));
    }
    lemma_split_render(ps, Seq::empty());
    assert(render(ps) + Seq::empty() =~= render(ps));
    let lines = bodies(ps).push(Seq::empty());
    assert(lines.drop_last() =~= bodies(ps));
    assert(trim(Seq::<char>::empty()) == Seq::<char>::empty());
    assert(parse_entry(lines.last()) is None);
    lemma_apply_bodies(ps);
    let r = apply_lines(Map::empty(), bodies(ps));
    assert forall|k: Seq<char>| m.contains_key(k) <==> r.contains_key(k) by {
        if m.contains_key(k) {
            let i = choose|i: int| 0 <= i < ps.len() && ps[i].0 == k;
            assert(r.contains_key(ps[i].0));
        }
        if r.contains_key(k) {
            let i = choose|i: int| 0 <= i < ps.len() && ps[i].0 == k;
            assert(m.contains_key(ps[i].0));
        }
    }
    assert forall|k: Seq<char>| m.contains_key(k) implies m[k] == r[k] by {
        let i = choose|i: int| 0 <= i < ps.len() && ps[i].0 == k;
        assert(m.contains_key(ps[i].0));
        assert(r.contains_key(ps[i].0));
    }
    assert(r =~= m);
}

} // verus!

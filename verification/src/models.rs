//! Picking the image models out of the API's model list.
use vstd::prelude::*;
use vstd::relations::{sorted_by, total_ordering};
use crate::output::views;
use crate::text::chars_of;

verus! {

broadcast use vstd::seq_lib::group_to_multiset_ensures;

/// `pat` occurs in `s`.
pub open spec fn contains_seq(s: Seq<char>, pat: Seq<char>) -> bool {
    exists|i: int|
        0 <= i && i + pat.len() <= s.len() && #[trigger] s.subrange(i, i + pat.len()) == pat
}

/// `s` begins with `pre`.
pub open spec fn starts_with_seq(s: Seq<char>, pre: Seq<char>) -> bool {
    pre.len() <= s.len() && s.take(pre.len() as int) == pre
}

/// A model id that looks image-related: it contains `image` or starts with
/// `dall-e`.
pub open spec fn is_image_model(id: Seq<char>) -> bool {
    contains_seq(id, "image"@) || starts_with_seq(id, "dall-e"@)
}

/// Lexicographic order by code point, which is the order of `String`s.
pub open spec fn lex_le(a: Seq<char>, b: Seq<char>) -> bool
    decreases a.len(),
{
    if a.len() == 0 {
        true
    } else if b.len() == 0 {
        false
    } else if a[0] != b[0] {
        a[0] < b[0]
    } else {
        lex_le(a.drop_first(), b.drop_first())
    }
}

/// [`lex_le`] as a relation.
pub open spec fn lex_order() -> spec_fn(Seq<char>, Seq<char>) -> bool {
    |a: Seq<char>, b: Seq<char>| lex_le(a, b)
}

proof fn lemma_lex_reflexive(a: Seq<char>)
    ensures
        lex_le(a, a),
    decreases a.len(),
{
    if a.len() > 0 {
        lemma_lex_reflexive(a.drop_first());
    }
}

proof fn lemma_lex_total(a: Seq<char>, b: Seq<char>)
    ensures
        lex_le(a, b) || lex_le(b, a),
    decreases a.len(),
{
    if a.len() > 0 && b.len() > 0 && a[0] == b[0] {
        lemma_lex_total(a.drop_first(), b.drop_first());
    }
}

proof fn lemma_lex_antisymmetric(a: Seq<char>, b: Seq<char>)
    requires
        lex_le(a, b),
        lex_le(b, a),
    ensures
        a == b,
    decreases a.len(),
{
    if a.len() > 0 && b.len() > 0 {
        lemma_lex_antisymmetric(a.drop_first(), b.drop_first());
        assert(a =~= seq![a[0]] + a.drop_first());
        assert(b =~= seq![b[0]] + b.drop_first());
    } else {
        assert(a =~= b);
    }
}

proof fn lemma_lex_transitive(a: Seq<char>, b: Seq<char>, c: Seq<char>)
    requires
        lex_le(a, b),
        lex_le(b, c),
    ensures
        lex_le(a, c),
    decreases a.len(),
{
    if a.len() > 0 && b.len() > 0 && c.len() > 0 && a[0] == b[0] && b[0] == c[0] {
        lemma_lex_transitive(a.drop_first(), b.drop_first(), c.drop_first());
    }
}

/// The order of model ids is a total order.
pub proof fn lemma_lex_total_ordering()
    ensures
        total_ordering(lex_order()),
{
    assert forall|x: Seq<char>| #[trigger] lex_order()(x, x) by {
        lemma_lex_reflexive(x);
    }
    assert forall|x: Seq<char>, y: Seq<char>|
        #[trigger] lex_order()(x, y) && #[trigger] lex_order()(y, x) implies x == y by {
        lemma_lex_antisymmetric(x, y);
    }
    assert forall|x: Seq<char>, y: Seq<char>, z: Seq<char>|
        #[trigger] lex_order()(x, y) && #[trigger] lex_order()(y, z) implies lex_order()(x, z) by {
        lemma_lex_transitive(x, y, z);
    }
    assert forall|x: Seq<char>, y: Seq<char>|
        #[trigger] lex_order()(x, y) || #[trigger] lex_order()(y, x) by {
        lemma_lex_total(x, y);
    }
}

/// Whether `a` sorts no later than `b`.
fn lex_le_exec(a: &str, b: &str) -> (r: bool)
    ensures
        r == lex_le(a@, b@),
{
    let va = chars_of(a);
    let vb = chars_of(b);
    let mut i: usize = 0;
    proof {
        assert(va@.skip(0) =~= va@);
        assert(vb@.skip(0) =~= vb@);
    }
    while i < va.len() && i < vb.len() && va[i] == vb[i]
        invariant
            va@ == a@,
            vb@ == b@,
            i <= va@.len(),
            i <= vb@.len(),
            lex_le(a@, b@) == lex_le(va@.skip(i as int), vb@.skip(i as int)),
        decreases va.len() - i,
    {
        proof {
            assert(va@.skip(i as int).drop_first() =~= va@.skip(i + 1 as int));
            assert(vb@.skip(i as int).drop_first() =~= vb@.skip(i + 1 as int));
        }
        i = i + 1;
    }
    if i == va.len() {
        return true;
    }
    if i == vb.len() {
        return false;
    }
    proof {
        assert(va@.skip(i as int)[0] == va@[i as int]);
        assert(vb@.skip(i as int)[0] == vb@[i as int]);
    }
    va[i] < vb[i]
}

/// Whether `p` occurs in `v` at position `i`.
fn matches_at(v: &Vec<char>, p: &Vec<char>, i: usize) -> (r: bool)
    requires
        i + p.len() <= v.len(),
    ensures
        r == (v@.subrange(i as int, i + p@.len()) == p@),
{
    let mut j: usize = 0;
    while j < p.len()
        invariant
            i + p.len() <= v.len(),
            j <= p@.len(),
            forall|t: int| 0 <= t < j ==> v@[i + t] == p@[t],
        decreases p.len() - j,
    {
        if v[i + j] != p[j] {
            assert(v@.subrange(i as int, i + p@.len())[j as int] != p@[j as int]);
            return false;
        }
        j = j + 1;
    }
    assert(v@.subrange(i as int, i + p@.len()) =~= p@);
    true
}

/// Whether `s` contains `pat`.
fn contains_exec(s: &str, pat: &str) -> (r: bool)
    ensures
        r == contains_seq(s@, pat@),
{
    let v = chars_of(s);
    let p = chars_of(pat);
    if p.len() > v.len() {
        return false;
    }
    if p.len() == 0 {
        assert(s@.subrange(0int, 0int + pat@.len()) =~= pat@);
        return true;
    }
    let mut i: usize = 0;
    while i <= v.len() - p.len()
        invariant
            v@ == s@,
            p@ == pat@,
            0 < p.len() <= v.len(),
            i <= v.len() - p.len() + 1,
            forall|k: int|
                0 <= k < i ==> #[trigger] v@.subrange(k, k + p@.len()) != p@,
        decreases v.len() - i,
    {
        if matches_at(&v, &p, i) {
            return true;
        }
        i = i + 1;
    }
    assert forall|k: int| 0 <= k && k + pat@.len() <= s@.len() implies #[trigger] s@.subrange(
        k,
        k + pat@.len(),
    ) != pat@ by {
        assert(k < i);
    }
    false
}

/// Whether `s` begins with `pre`.
fn starts_with_exec(s: &str, pre: &str) -> (r: bool)
    ensures
        r == starts_with_seq(s@, pre@),
{
    let v = chars_of(s);
    let p = chars_of(pre);
    if p.len() > v.len() {
        return false;
    }
    let mut j: usize = 0;
    while j < p.len()
        invariant
            v@ == s@,
            p@ == pre@,
            p@.len() <= v@.len(),
            j <= p@.len(),
            forall|t: int| 0 <= t < j ==> v@[t] == p@[t],
        decreases p.len() - j,
    {
        if v[j] != p[j] {
            assert(v@.take(p@.len() as int)[j as int] != p@[j as int]);
            return false;
        }
        j = j + 1;
    }
    assert(v@.take(p@.len() as int) =~= p@);
    true
}

/// Whether `id` names an image model.
pub fn is_image_model_id(id: &str) -> (r: bool)
    ensures
        r == is_image_model(id@),
{
    contains_exec(id, "image") || starts_with_exec(id, "dall-e")
}

proof fn lemma_insert_multiset(s: Seq<Seq<char>>, p: int, x: Seq<char>)
    requires
        0 <= p <= s.len(),
    ensures
        s.insert(p, x).to_multiset() == s.to_multiset().insert(x),
{
    let t = s.insert(p, x);
    assert(t.remove(p) =~= s);
    assert(t[p] == x);
    assert(t.to_multiset().count(x) > 0);
    assert(t.to_multiset() =~= t.to_multiset().remove(x).insert(x));
}

/// The image models among `ids`, in sorted order.
pub fn select_image_models(ids: Vec<String>) -> (r: Vec<String>)
    ensures
        views(r@).to_multiset() == views(ids@).filter(|id: Seq<char>| is_image_model(id)).to_multiset(),
        sorted_by(views(r@), lex_order()),
        forall|i: int| 0 <= i < r@.len() ==> is_image_model(#[trigger] r@[i]@),
        forall|i: int|
            0 <= i < ids@.len() && is_image_model(#[trigger] ids@[i]@) ==> views(r@).contains(
                ids@[i]@,
            ),
{
    let ghost pred = |id: Seq<char>| is_image_model(id);
    let mut sorted: Vec<String> = Vec::new();
    let mut i: usize = 0;
    while i < ids.len()
        invariant
            i <= ids@.len(),
            pred == (|id: Seq<char>| is_image_model(id)),
            views(sorted@).to_multiset() == views(ids@.take(i as int)).filter(pred).to_multiset(),
            sorted_by(views(sorted@), lex_order()),
        decreases ids.len() - i,
    {
        proof {
            assert(views(ids@.take(i + 1 as int)) =~= views(ids@.take(i as int)).push(ids@[i as int]@));
            views(ids@.take(i as int)).lemma_filter_push(ids@[i as int]@, pred);
        }
        let id = &ids[i];
        if is_image_model_id(id.as_str()) {
            let mut p: usize = 0;
            while p < sorted.len() && lex_le_exec(sorted[p].as_str(), id.as_str())
                invariant
                    p <= sorted@.len(),
                    forall|k: int| 0 <= k < p ==> lex_le(#[trigger] sorted@[k]@, id@),
                decreases sorted.len() - p,
            {
                p = p + 1;
            }
            let ghost old_views = views(sorted@);
            sorted.insert(p, id.clone());
            proof {
                assert(views(sorted@) =~= old_views.insert(p as int, id@));
                lemma_insert_multiset(old_views, p as int, id@);
                lemma_lex_total_ordering();
                let nv = views(sorted@);
                assert forall|a: int, b: int| 0 <= a < b < nv.len() implies #[trigger] lex_order()(
                    nv[a],
                    nv[b],
                ) by {
                    if a < p && b == p {
                        assert(nv[a] == old_views[a]);
                    } else if a == p && b > p {
                        assert(nv[b] == old_views[b - 1]);
                        if p < old_views.len() {
                            assert(!lex_le(old_views[p as int], id@));
                            lemma_lex_total(old_views[p as int], id@);
                            if b - 1 > p {
                                assert(lex_order()(old_views[p as int], old_views[b - 1]));
                                lemma_lex_transitive(id@, old_views[p as int], old_views[b - 1]);
                            }
                        }
                    } else if a < p && b > p {
                        assert(nv[a] == old_views[a]);
                        assert(nv[b] == old_views[b - 1]);
                        assert(lex_order()(old_views[a], old_views[b - 1]));
                    } else if b < p {
                        assert(nv[a] == old_views[a]);
                        assert(nv[b] == old_views[b]);
                    } else {
                        assert(nv[a] == old_views[a - 1]);
                        assert(nv[b] == old_views[b - 1]);
                        assert(lex_order()(old_views[a - 1], old_views[b - 1]));
                    }
                }
            }
        }
        i = i + 1;
    }
    proof {
        assert(ids@.take(ids@.len() as int) =~= ids@);
        let f = views(ids@).filter(pred);
        assert forall|i: int| 0 <= i < sorted@.len() implies is_image_model(
            #[trigger] sorted@[i]@,
        ) by {
            let x = sorted@[i]@;
            assert(views(sorted@)[i] == x);
            assert(views(sorted@).to_multiset().count(x) > 0);
            assert(f.contains(x));
            let j = choose|j: int| 0 <= j < f.len() && f[j] == x;
            views(ids@).lemma_filter_pred(pred, j);
        }
        assert forall|i: int|
            0 <= i < ids@.len() && is_image_model(#[trigger] ids@[i]@) implies views(
            sorted@,
        ).contains(ids@[i]@) by {
            let x = ids@[i]@;
            assert(views(ids@)[i] == x);
            views(ids@).lemma_filter_contains(pred, i);
            assert(f.to_multiset().count(x) > 0);
        }
    }
    sorted
}

/// A model id counts as an image model exactly when the five letters `image`
/// occur in it somewhere, or it begins with `dall-e`.
pub proof fn lemma_image_model_ids(id: Seq<char>)
    ensures
        is_image_model(id) <==> ((exists|i: int|
            0 <= i && i + 5 <= id.len() && #[trigger] id.subrange(i, i + 5) == "image"@) || (
        id.len() >= 6 && id.take(6) == "dall-e"@)),
{
    reveal_strlit("image");
    reveal_strlit("dall-e");
    assert("image"@.len() == 5);
    assert("dall-e"@.len() == 6);
}

} // verus!

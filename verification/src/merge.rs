//! The merge engine.
//!
//! Documents are folded in a fixed order into one flat key/value list; a key
//! set by a later document overwrites the value from an earlier one, so the
//! later a document stands in the input, the higher its precedence.
use crate::yaml::{Document, Node};
use vstd::prelude::*;

verus! {

/// The mathematical shape of a flat settings list: keys with opaque values,
/// in insertion order.
pub type Pairs = Seq<(Seq<u8>, serde_json::Value)>;

/// View of an executable pair list.
pub open spec fn pairs_view(s: Seq<(Vec<u8>, serde_json::Value)>) -> Pairs {
    s.map_values(|p: (Vec<u8>, serde_json::Value)| (p.0@, p.1))
}

/// What one top-level value contributes to the merge: its entries if it is
/// a mapping, nothing otherwise.
pub open spec fn node_pairs(n: Node) -> Pairs {
    match n {
        Node::Section(ps) => pairs_view(ps@),
        Node::Leaf(_) => Seq::empty(),
    }
}

/// What a root mapping's entries contribute, in document order.
pub open spec fn entries_pairs(es: Seq<(Vec<u8>, Node)>) -> Pairs
    decreases es.len(),
{
    if es.len() == 0 {
        Seq::empty()
    } else {
        entries_pairs(es.drop_last()) + node_pairs(es.last().1)
    }
}

/// What a whole document contributes to the merge.
pub open spec fn doc_pairs(d: Document) -> Pairs {
    match d {
        Document::Mapping(es) => entries_pairs(es@),
        Document::Other => Seq::empty(),
    }
}

/// Index of the entry holding key `k`, or -1. (With unique keys the choice
/// of occurrence does not matter; this one takes the last.)
pub open spec fn find_key(m: Pairs, k: Seq<u8>) -> int
    decreases m.len(),
{
    if m.len() == 0 {
        -1
    } else if m.last().0 == k {
        m.len() - 1
    } else {
        find_key(m.drop_last(), k)
    }
}

pub open spec fn has_key(m: Pairs, k: Seq<u8>) -> bool {
    find_key(m, k) >= 0
}

/// Insert with overwrite: replace the value in place if the key is present,
/// append otherwise.
pub open spec fn put(m: Pairs, k: Seq<u8>, v: serde_json::Value) -> Pairs {
    if has_key(m, k) {
        m.update(find_key(m, k), (k, v))
    } else {
        m.push((k, v))
    }
}

/// Fold a contribution list into an accumulator, front to back.
pub open spec fn put_all(m: Pairs, ps: Pairs) -> Pairs
    decreases ps.len(),
{
    if ps.len() == 0 {
        m
    } else {
        put(put_all(m, ps.drop_last()), ps.last().0, ps.last().1)
    }
}

/// Fold whole documents, front to back: the last document wins.
pub open spec fn merge_docs(m: Pairs, docs: Seq<Document>) -> Pairs
    decreases docs.len(),
{
    if docs.len() == 0 {
        m
    } else {
        put_all(merge_docs(m, docs.drop_last()), doc_pairs(docs.last()))
    }
}

/// The merge of a document list, starting from nothing.
pub open spec fn merged_of(docs: Seq<Document>) -> Pairs {
    merge_docs(Seq::empty(), docs)
}

/// No key occurs twice.
pub open spec fn unique_keys(m: Pairs) -> bool {
    forall|i: int, j: int| 0 <= i < j < m.len() ==> m[i].0 != m[j].0
}

/// The key/value list read as a map.
pub open spec fn map_of(m: Pairs) -> Map<Seq<u8>, serde_json::Value>
    decreases m.len(),
{
    if m.len() == 0 {
        Map::empty()
    } else {
        map_of(m.drop_last()).insert(m.last().0, m.last().1)
    }
}

pub proof fn lemma_find_key(m: Pairs, k: Seq<u8>)
    ensures
        -1 <= find_key(m, k) < m.len(),
        find_key(m, k) >= 0 ==> m[find_key(m, k)].0 == k,
        forall|j: int| find_key(m, k) < j < m.len() ==> m[j].0 != k,
    decreases m.len(),
{
    if m.len() > 0 && m.last().0 != k {
        lemma_find_key(m.drop_last(), k);
        assert forall|j: int| find_key(m, k) < j < m.len() implies m[j].0 != k by {
            if j < m.len() - 1 {
                assert(m[j] == m.drop_last()[j]);
            }
        }
    }
}

pub proof fn lemma_put_unique(m: Pairs, k: Seq<u8>, v: serde_json::Value)
    requires
        unique_keys(m),
    ensures
        unique_keys(put(m, k, v)),
{
    lemma_find_key(m, k);
    if has_key(m, k) {
        let r = m.update(find_key(m, k), (k, v));
        assert forall|i: int, j: int| 0 <= i < j < r.len() implies r[i].0 != r[j].0 by {
            let f = find_key(m, k);
            assert(m[f].0 == k);
            if i != f && j != f {
                assert(r[i].0 == m[i].0 && r[j].0 == m[j].0);
            } else if i == f {
                assert(r[i].0 == k && r[j].0 == m[j].0 && m[f].0 == k);
            } else {
                assert(r[j].0 == k && r[i].0 == m[i].0 && m[f].0 == k);
            }
        }
    } else {
        let r = m.push((k, v));
        assert forall|i: int, j: int| 0 <= i < j < r.len() implies r[i].0 != r[j].0 by {
            if j == m.len() {
                assert(r[i].0 == m[i].0 && r[j].0 == k);
            } else {
                assert(r[i].0 == m[i].0 && r[j].0 == m[j].0);
            }
        }
    }
}

/// How a pair list reads as a map: it holds exactly the keys on the list,
/// each at the value of its deciding occurrence. This is the bridge between
/// an executable pair list and the `map_of` form the laws above and below
/// are stated in.
pub proof fn lemma_map_of(m: Pairs, k: Seq<u8>)
    ensures
        map_of(m).contains_key(k) == has_key(m, k),
        has_key(m, k) ==> map_of(m)[k] == m[find_key(m, k)].1,
    decreases m.len(),
{
    lemma_find_key(m, k);
    if m.len() > 0 {
        lemma_map_of(m.drop_last(), k);
        lemma_find_key(m.drop_last(), k);
        if m.last().0 != k {
            assert(find_key(m, k) == find_key(m.drop_last(), k));
            if has_key(m, k) {
                assert(m[find_key(m, k)] == m.drop_last()[find_key(m, k)]);
            }
        }
    }
}

/// Replacing the value at the (sole) index of `k` updates the map reading.
proof fn lemma_map_of_update(m: Pairs, i: int, k: Seq<u8>, v: serde_json::Value)
    requires
        0 <= i < m.len(),
        m[i].0 == k,
        forall|j: int| i < j < m.len() ==> m[j].0 != k,
    ensures
        map_of(m.update(i, (k, v))) =~= map_of(m).insert(k, v),
    decreases m.len(),
{
    let r = m.update(i, (k, v));
    if i == m.len() - 1 {
        assert(r.drop_last() =~= m.drop_last());
        assert(map_of(r) == map_of(m.drop_last()).insert(k, v));
        assert(map_of(m).insert(k, v) =~= map_of(m.drop_last()).insert(m.last().0,
            m.last().1).insert(k, v));
        assert(m.last().0 == k);
        assert(map_of(m.drop_last()).insert(k, m.last().1).insert(k, v) =~= map_of(
            m.drop_last(),
        ).insert(k, v));
    } else {
        assert(r.drop_last() =~= m.drop_last().update(i, (k, v)));
        assert(forall|j: int| i < j < m.drop_last().len() ==> m.drop_last()[j].0 != k);
        assert(m.drop_last()[i] == m[i]);
        lemma_map_of_update(m.drop_last(), i, k, v);
        assert(r.last() == m.last());
        assert(map_of(r) == map_of(m.drop_last()).insert(k, v).insert(m.last().0, m.last().1));
        assert(m.last().0 != k);
        assert(map_of(m.drop_last()).insert(k, v).insert(m.last().0, m.last().1) =~= map_of(
            m.drop_last(),
        ).insert(m.last().0, m.last().1).insert(k, v));
    }
}

pub proof fn lemma_put_map(m: Pairs, k: Seq<u8>, v: serde_json::Value)
    ensures
        map_of(put(m, k, v)) =~= map_of(m).insert(k, v),
{
    lemma_find_key(m, k);
    if has_key(m, k) {
        lemma_map_of_update(m, find_key(m, k), k, v);
    } else {
        assert(m.push((k, v)).drop_last() =~= m);
        assert(m.push((k, v)).last() == (k, v));
        assert(map_of(m.push((k, v))) == map_of(m).insert(k, v));
    }
}

pub proof fn lemma_put_all_unique(m: Pairs, ps: Pairs)
    requires
        unique_keys(m),
    ensures
        unique_keys(put_all(m, ps)),
    decreases ps.len(),
{
    if ps.len() > 0 {
        lemma_put_all_unique(m, ps.drop_last());
        lemma_put_unique(put_all(m, ps.drop_last()), ps.last().0, ps.last().1);
    }
}

/// How a folded contribution list reads as a map: a key set by `ps` reads
/// as its last value there; any other key reads as it did before the fold.
pub proof fn lemma_put_all_map(m: Pairs, ps: Pairs, k: Seq<u8>)
    ensures
        has_key(ps, k) ==> map_of(put_all(m, ps)).contains_key(k) && map_of(put_all(m, ps))[k]
            == ps[find_key(ps, k)].1,
        !has_key(ps, k) ==> map_of(put_all(m, ps)).contains_key(k) == map_of(m).contains_key(k)
            && (map_of(m).contains_key(k) ==> map_of(put_all(m, ps))[k] == map_of(m)[k]),
    decreases ps.len(),
{
    lemma_find_key(ps, k);
    if ps.len() > 0 {
        lemma_put_all_map(m, ps.drop_last(), k);
        lemma_find_key(ps.drop_last(), k);
        let prev = put_all(m, ps.drop_last());
        lemma_put_map(prev, ps.last().0, ps.last().1);
        if ps.last().0 != k {
            assert(find_key(ps, k) == find_key(ps.drop_last(), k));
            if has_key(ps, k) {
                assert(ps[find_key(ps, k)] == ps.drop_last()[find_key(ps, k)]);
            }
        }
    }
}

/// Folding a concatenation is folding the parts in turn.
pub proof fn lemma_put_all_concat(m: Pairs, a: Pairs, b: Pairs)
    ensures
        put_all(m, a + b) == put_all(put_all(m, a), b),
    decreases b.len(),
{
    if b.len() == 0 {
        assert(a + b =~= a);
    } else {
        assert((a + b).drop_last() =~= a + b.drop_last());
        assert((a + b).last() == b.last());
        lemma_put_all_concat(m, a, b.drop_last());
    }
}

/// Precedence law: if document `i` sets key `k` and no later document sets
/// it, the merged value of `k` is the one document `i` set (its last, if it
/// set it twice). Documents are given lowest-priority first, so the
/// device's own layer, standing last, always wins.
pub proof fn lemma_layer_precedence(docs: Seq<Document>, i: int, k: Seq<u8>)
    requires
        0 <= i < docs.len(),
        has_key(doc_pairs(docs[i]), k),
        forall|j: int| i < j < docs.len() ==> !has_key(doc_pairs(#[trigger] docs[j]), k),
    ensures
        map_of(merged_of(docs)).contains_key(k),
        map_of(merged_of(docs))[k] == doc_pairs(docs[i])[find_key(doc_pairs(docs[i]), k)].1,
    decreases docs.len(),
{
    let prev = merged_of(docs.drop_last());
    lemma_put_all_map(prev, doc_pairs(docs.last()), k);
    if i == docs.len() - 1 {
    } else {
        assert(!has_key(doc_pairs(docs[docs.len() - 1]), k));
        assert(docs.drop_last()[i] == docs[i]);
        assert(forall|j: int| i < j < docs.drop_last().len() ==> !has_key(
            doc_pairs(#[trigger] docs.drop_last()[j]),
            k,
        ));
        lemma_layer_precedence(docs.drop_last(), i, k);
    }
}

/// Key conservation law: the merged document holds exactly the keys that
/// some input document contributes; none is lost and none invented.
pub proof fn lemma_merged_keys(docs: Seq<Document>, k: Seq<u8>)
    ensures
        map_of(merged_of(docs)).contains_key(k) <==> exists|j: int|
            0 <= j < docs.len() && has_key(doc_pairs(#[trigger] docs[j]), k),
    decreases docs.len(),
{
    if docs.len() == 0 {
    } else {
        let prev = merged_of(docs.drop_last());
        lemma_put_all_map(prev, doc_pairs(docs.last()), k);
        lemma_merged_keys(docs.drop_last(), k);
        if has_key(doc_pairs(docs.last()), k) {
            assert(has_key(doc_pairs(docs[docs.len() - 1]), k));
        } else {
            assert forall|j: int|
                0 <= j < docs.drop_last().len() && has_key(
                    doc_pairs(#[trigger] docs.drop_last()[j]),
                    k,
                ) implies 0 <= j < docs.len() && has_key(doc_pairs(docs[j]), k) by {
                assert(docs.drop_last()[j] == docs[j]);
            }
            assert forall|j: int|
                0 <= j < docs.len() && has_key(doc_pairs(#[trigger] docs[j]), k) implies 0 <= j
                < docs.drop_last().len() && has_key(doc_pairs(docs.drop_last()[j]), k) by {
                assert(j != docs.len() - 1);
                assert(docs.drop_last()[j] == docs[j]);
            }
        }
    }
}

/// Replace the value of `k` in place, or append, keeping keys unique.
#[verifier::loop_isolation(false)]
fn put_pair(acc: Vec<(Vec<u8>, serde_json::Value)>, k: Vec<u8>, v: serde_json::Value) -> (r: Vec<
    (Vec<u8>, serde_json::Value),
>)
    requires
        unique_keys(pairs_view(acc@)),
    ensures
        pairs_view(r@) == put(pairs_view(acc@), k@, v),
        unique_keys(pairs_view(r@)),
{
    let ghost m = pairs_view(acc@);
    let ghost gk = k@;
    let ghost gv = v;
    let mut out = acc;
    proof {
        lemma_find_key(m, k@);
        lemma_put_unique(m, k@, v);
    }
    let mut i: usize = 0;
    while i < out.len()
        invariant
            i <= out.len(),
            m == pairs_view(out@),
            unique_keys(m),
            k@ == gk,
            v == gv,
            forall|j: int| 0 <= j < i ==> m[j].0 != gk,
        decreases out.len() - i,
    {
        let hit = crate::text::eq_bytes(&out[i].0, &k);
        if hit {
            proof {
                assert(m[i as int].0 == k@);
                lemma_find_key(m, k@);
                if find_key(m, k@) > i {
                    assert(m[find_key(m, k@)].0 == k@);
                    assert(false);
                } else if find_key(m, k@) < i {
                    assert(m[i as int].0 != k@);
                    assert(false);
                }
            }
            out.remove(i);
            out.insert(i, (k, v));
            proof {
                assert(pairs_view(out@) =~= m.update(i as int, (gk, gv)));
                assert(put(m, gk, gv) == m.update(i as int, (gk, gv)));
            }
            return out;
        }
        i = i + 1;
    }
    proof {
        lemma_find_key(m, k@);
        assert(!has_key(m, k@)) by {
            if find_key(m, k@) >= 0 {
                assert(m[find_key(m, k@)].0 == k@);
            }
        }
    }
    out.push((k, v));
    proof {
        assert(pairs_view(out@) =~= m.push((gk, gv)));
    }
    out
}

/// Merge a document list, lowest priority first, into one flat list with
/// unique keys; a later document's value for a key overwrites an earlier
/// one's.
pub fn merge_documents(docs: &Vec<Document>) -> (r: Vec<(Vec<u8>, serde_json::Value)>)
    ensures
        pairs_view(r@) == merged_of(docs@),
        unique_keys(pairs_view(r@)),
{
    let mut acc: Vec<(Vec<u8>, serde_json::Value)> = Vec::new();
    proof {
        assert(pairs_view(acc@) =~= Seq::empty());
    }
    let mut d: usize = 0;
    while d < docs.len()
        invariant
            d <= docs.len(),
            pairs_view(acc@) == merge_docs(Seq::empty(), docs@.subrange(0, d as int)),
            unique_keys(pairs_view(acc@)),
        decreases docs.len() - d,
    {
        let ghost m_d = merge_docs(Seq::empty(), docs@.subrange(0, d as int));
        proof {
            assert(docs@.subrange(0, d + 1 as int).drop_last() =~= docs@.subrange(0, d as int));
            assert(docs@.subrange(0, d + 1 as int).last() == docs@[d as int]);
        }
        match &docs[d] {
            Document::Other => {
                proof {
                    assert(doc_pairs(docs@[d as int]) =~= Seq::empty());
                }
            },
            Document::Mapping(es) => {
                let mut e: usize = 0;
                while e < es.len()
                    invariant
                        e <= es.len(),
                        m_d == merge_docs(Seq::empty(), docs@.subrange(0, d as int)),
                        docs@[d as int] == Document::Mapping(*es),
                        d < docs.len(),
                        pairs_view(acc@) == put_all(m_d, entries_pairs(es@.subrange(0, e as int))),
                        unique_keys(pairs_view(acc@)),
                    decreases es.len() - e,
                {
                    let ghost entries_done = entries_pairs(es@.subrange(0, e as int));
                    proof {
                        assert(es@.subrange(0, e + 1 as int).drop_last() =~= es@.subrange(
                            0,
                            e as int,
                        ));
                        assert(es@.subrange(0, e + 1 as int).last() == es@[e as int]);
                        assert(entries_pairs(es@.subrange(0, e + 1 as int)) == entries_done
                            + node_pairs(es@[e as int].1));
                    }
                    match &es[e].1 {
                        Node::Leaf(_) => {
                            proof {
                                assert(node_pairs(es@[e as int].1) =~= Seq::empty());
                                assert(entries_done + Seq::empty() =~= entries_done);
                            }
                        },
                        Node::Section(ps) => {
                            let ghost base = put_all(m_d, entries_done);
                            let mut j: usize = 0;
                            while j < ps.len()
                                invariant
                                    j <= ps.len(),
                                    base == put_all(m_d, entries_done),
                                    pairs_view(acc@) == put_all(
                                        base,
                                        pairs_view(ps@.subrange(0, j as int)),
                                    ),
                                    unique_keys(pairs_view(acc@)),
                                decreases ps.len() - j,
                            {
                                let key = crate::text::copy_vec(&ps[j].0);
                                let val = ps[j].1.clone();
                                proof {
                                    assert(pairs_view(ps@.subrange(0, j + 1 as int)) =~= pairs_view(
                                        ps@.subrange(0, j as int),
                                    ).push((ps@[j as int].0@, ps@[j as int].1)));
                                    assert(pairs_view(ps@.subrange(0, j + 1 as int)).drop_last()
                                        =~= pairs_view(ps@.subrange(0, j as int)));
                                }
                                acc = put_pair(acc, key, val);
                                j = j + 1;
                            }
                            proof {
                                assert(ps@.subrange(0, ps@.len() as int) =~= ps@);
                                assert(node_pairs(es@[e as int].1) == pairs_view(ps@));
                                lemma_put_all_concat(m_d, entries_done, pairs_view(ps@));
                            }
                        },
                    }
                    proof {
                        lemma_put_all_concat(m_d, entries_done, node_pairs(es@[e as int].1));
                    }
                    e = e + 1;
                }
                proof {
                    assert(es@.subrange(0, es@.len() as int) =~= es@);
                    assert(doc_pairs(docs@[d as int]) == entries_pairs(es@));
                }
            },
        }
        d = d + 1;
    }
    proof {
        assert(docs@.subrange(0, docs@.len() as int) =~= docs@);
    }
    acc
}

} // verus!

//! The shape of the metadata document the capture route inspects: a
//! container holding metadata entries, each holding media entries, each
//! holding parts; a part exposes the routing key and the on-disk file path.
//! `collect_parts` flattens the document into its (key, file) pairs in
//! document order.

use vstd::prelude::*;

verus! {

pub struct Part {
    pub key: String,
    pub file: String,
}

pub struct Media {
    pub parts: Vec<Part>,
}

pub struct Metadata {
    pub media: Vec<Media>,
}

pub struct MediaContainer {
    pub metadata: Vec<Metadata>,
}

pub struct Container {
    pub media_container: MediaContainer,
}

pub open spec fn part_pair(p: Part) -> (Seq<char>, Seq<char>) {
    (p.key@, p.file@)
}

pub open spec fn parts_pairs(ps: Seq<Part>) -> Seq<(Seq<char>, Seq<char>)>
    decreases ps.len(),
{
    if ps.len() == 0 {
        Seq::empty()
    } else {
        parts_pairs(ps.drop_last()).push(part_pair(ps.last()))
    }
}

pub open spec fn media_pairs(m: Media) -> Seq<(Seq<char>, Seq<char>)> {
    parts_pairs(m.parts@)
}

pub open spec fn media_seq_pairs(ms: Seq<Media>) -> Seq<(Seq<char>, Seq<char>)>
    decreases ms.len(),
{
    if ms.len() == 0 {
        Seq::empty()
    } else {
        media_seq_pairs(ms.drop_last()) + media_pairs(ms.last())
    }
}

pub open spec fn metadata_pairs(md: Metadata) -> Seq<(Seq<char>, Seq<char>)> {
    media_seq_pairs(md.media@)
}

pub open spec fn metadata_seq_pairs(s: Seq<Metadata>) -> Seq<(Seq<char>, Seq<char>)>
    decreases s.len(),
{
    if s.len() == 0 {
        Seq::empty()
    } else {
        metadata_seq_pairs(s.drop_last()) + metadata_pairs(s.last())
    }
}

/// Every (key, file) pair of every part of the document, in document order.
pub open spec fn container_pairs(c: Container) -> Seq<(Seq<char>, Seq<char>)> {
    metadata_seq_pairs(c.media_container.metadata@)
}

/// The views of a sequence of collected (key, file) pairs.
pub open spec fn pairs_view(v: Seq<(String, String)>) -> Seq<(Seq<char>, Seq<char>)>
    decreases v.len(),
{
    if v.len() == 0 {
        Seq::empty()
    } else {
        pairs_view(v.drop_last()).push((v.last().0@, v.last().1@))
    }
}

/// The view of a collected pair list is its pointwise view.
pub proof fn lemma_pairs_view_index(v: Seq<(String, String)>)
    ensures
        pairs_view(v).len() == v.len(),
        forall|i: int| 0 <= i < v.len() ==> pairs_view(v)[i] == (v[i].0@, v[i].1@),
    decreases v.len(),
{
    if v.len() > 0 {
        lemma_pairs_view_index(v.drop_last());
    }
}

proof fn lemma_parts_step(s: Seq<Part>, k: int)
    requires
        0 <= k < s.len(),
    ensures
        parts_pairs(s.take(k + 1)) == parts_pairs(s.take(k)).push(part_pair(s[k])),
{
    assert(s.take(k + 1).drop_last() =~= s.take(k));
    assert(s.take(k + 1).last() == s[k]);
}

proof fn lemma_media_step(s: Seq<Media>, j: int)
    requires
        0 <= j < s.len(),
    ensures
        media_seq_pairs(s.take(j + 1)) == media_seq_pairs(s.take(j)) + media_pairs(s[j]),
{
    assert(s.take(j + 1).drop_last() =~= s.take(j));
    assert(s.take(j + 1).last() == s[j]);
}

proof fn lemma_metadata_step(s: Seq<Metadata>, i: int)
    requires
        0 <= i < s.len(),
    ensures
        metadata_seq_pairs(s.take(i + 1)) == metadata_seq_pairs(s.take(i)) + metadata_pairs(s[i]),
{
    assert(s.take(i + 1).drop_last() =~= s.take(i));
    assert(s.take(i + 1).last() == s[i]);
}

proof fn lemma_pairs_view_push(v: Seq<(String, String)>, e: (String, String))
    ensures
        pairs_view(v.push(e)) == pairs_view(v).push((e.0@, e.1@)),
{
    assert(v.push(e).drop_last() =~= v);
    assert(v.push(e).last() == e);
}

/// Flattens the document into its (key, file) pairs, in document order.
pub fn collect_parts(c: &Container) -> (out: Vec<(String, String)>)
    ensures
        pairs_view(out@) == container_pairs(*c),
{
    let mut out: Vec<(String, String)> = Vec::new();
    let mds = &c.media_container.metadata;
    let mut i: usize = 0;
    proof {
        assert(mds@.take(0) =~= Seq::<Metadata>::empty());
    }
    while i < mds.len()
        invariant
            0 <= i <= mds@.len(),
            mds@ == c.media_container.metadata@,
            pairs_view(out@) == metadata_seq_pairs(mds@.take(i as int)),
        decreases mds@.len() - i,
    {
        let ms = &mds[i].media;
        let ghost base1 = pairs_view(out@);
        let mut j: usize = 0;
        proof {
            assert(ms@.take(0) =~= Seq::<Media>::empty());
            assert(base1 + media_seq_pairs(ms@.take(0)) =~= base1);
        }
        while j < ms.len()
            invariant
                0 <= j <= ms@.len(),
                0 <= i < mds@.len(),
                ms@ == mds@[i as int].media@,
                pairs_view(out@) == base1 + media_seq_pairs(ms@.take(j as int)),
            decreases ms@.len() - j,
        {
            let ps = &ms[j].parts;
            let ghost base2 = pairs_view(out@);
            let mut k: usize = 0;
            proof {
                assert(ps@.take(0) =~= Seq::<Part>::empty());
                assert(base2 + parts_pairs(ps@.take(0)) =~= base2);
            }
            while k < ps.len()
                invariant
                    0 <= k <= ps@.len(),
                    0 <= j < ms@.len(),
                    ps@ == ms@[j as int].parts@,
                    pairs_view(out@) == base2 + parts_pairs(ps@.take(k as int)),
                decreases ps@.len() - k,
            {
                let ghost before = out@;
                let p = &ps[k];
                out.push((p.key.clone(), p.file.clone()));
                proof {
                    lemma_pairs_view_push(before, (ps@[k as int].key, ps@[k as int].file));
                    lemma_parts_step(ps@, k as int);
                    assert(pairs_view(out@) =~= base2 + parts_pairs(ps@.take(k + 1)));
                }
                k = k + 1;
            }
            proof {
                assert(ps@.take(ps@.len() as int) =~= ps@);
                lemma_media_step(ms@, j as int);
                assert(base2 + media_pairs(ms@[j as int]) =~= base1 + media_seq_pairs(
                    ms@.take(j + 1),
                ));
            }
            j = j + 1;
        }
        proof {
            assert(ms@.take(ms@.len() as int) =~= ms@);
            lemma_metadata_step(mds@, i as int);
            assert(base1 + metadata_pairs(mds@[i as int]) =~= metadata_seq_pairs(
                mds@.take(i + 1),
            ));
        }
        i = i + 1;
    }
    proof {
        assert(mds@.take(mds@.len() as int) =~= mds@);
    }
    out
}

} // verus!

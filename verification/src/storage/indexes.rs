//! The posting-list indexes of a database: which entities carry a tag, come
//! from a source, or are the target of a relationship.
use vstd::prelude::*;

use crate::entity::EntityDocument;
use crate::ids::{EntityID, RegistryID, RelationshipTypeID, SourceID, TagID};
use crate::storage::posting_list::{filed, key_of, PostingList, PostingListRecord};
use crate::storage::registry::Registry;
use crate::storage::text_index::{
    alias_texts, alias_words, attribute_key_texts, attribute_pair_texts, attribute_value_texts,
    document_alias_texts, document_alias_words, document_attribute_texts, file_texts, filed_texts,
    lemma_texts_start, texts_upto, TextIndex,
};

verus! {

/// The tag slots of a document, in order.
pub open spec fn tag_keys(d: EntityDocument) -> Seq<usize> {
    d.tags@.map_values(|t: TagID| t.index)
}

/// The source slots of a document, in order.
pub open spec fn source_keys(d: EntityDocument) -> Seq<usize> {
    d.sources@.map_values(|s: SourceID| s.index)
}

/// The indexes of the entities a document's relationships point to, in order.
pub open spec fn target_keys(d: EntityDocument) -> Seq<usize> {
    d.relationships@.map_values(|r: crate::entity::Relationship| r.target.index)
}

/// Entity `v` is filed under key `k` by one of the documents before `i`,
/// or by one of the first `j` keys of document `i`.
pub open spec fn posted(
    docs: Seq<EntityDocument>,
    keys: spec_fn(EntityDocument) -> Seq<usize>,
    i: int,
    j: int,
    k: usize,
    v: u32,
) -> bool {
    exists|d: int, a: int|
        #![trigger keys(docs[d])[a], docs[d].id]
        0 <= d < docs.len() && (d < i || (d == i && a < j)) && 0 <= a < keys(docs[d]).len()
            && keys(docs[d])[a] == k && docs[d].id.index == v
}

/// What filing each document's entity under its keys gives, up to key `j`
/// of document `i`.
pub open spec fn postings_upto(
    docs: Seq<EntityDocument>,
    keys: spec_fn(EntityDocument) -> Seq<usize>,
    i: int,
    j: int,
) -> Map<usize, Set<u32>> {
    Map::new(
        |k: usize| exists|v: u32| #[trigger] posted(docs, keys, i, j, k, v),
        |k: usize| Set::new(|v: u32| posted(docs, keys, i, j, k, v)),
    )
}

/// For each key, the entities of the documents that carry it.
pub open spec fn postings(docs: Seq<EntityDocument>, keys: spec_fn(EntityDocument) -> Seq<usize>) -> Map<
    usize,
    Set<u32>,
> {
    postings_upto(docs, keys, docs.len() as int, 0)
}

/// The indexes of a database: texts (normalised aliases, their words,
/// attribute keys, values and `key:value` pairs) and posting lists (tags,
/// sources, relationship targets) with the entities filed under them.
#[derive(Debug)]
pub struct Indexes {
    pub alias: TextIndex,
    pub inverted: TextIndex,
    pub attribute_keys: TextIndex,
    pub attribute_values: TextIndex,
    pub attribute_pairs: TextIndex,
    pub tags: PostingList<TagID>,
    pub sources: PostingList<SourceID>,
    pub relationships: PostingList<EntityID>,
    pub relationships_type: Registry<RelationshipTypeID>,
}

/// The stored form of the tag and source indexes.
#[derive(Debug, Clone)]
pub struct ArchivedIndexes {
    pub tags: PostingListRecord<TagID>,
    pub sources: PostingListRecord<SourceID>,
}

/// Builds the indexes of a set of entity documents.
pub struct IndexBuilder;

proof fn lemma_postings_step(
    docs: Seq<EntityDocument>,
    keys: spec_fn(EntityDocument) -> Seq<usize>,
    i: int,
    j: int,
)
    requires
        0 <= i < docs.len(),
        0 <= j < keys(docs[i]).len(),
        docs[i].id.index <= u32::MAX,
    ensures
        postings_upto(docs, keys, i, j + 1) == filed(
            postings_upto(docs, keys, i, j),
            keys(docs[i])[j],
            docs[i].id.index as u32,
        ),
{
    let p = postings_upto(docs, keys, i, j);
    let q = postings_upto(docs, keys, i, j + 1);
    let kk = keys(docs[i])[j];
    let vv = docs[i].id.index as u32;
    let r = filed(p, kk, vv);
    assert(posted(docs, keys, i, j + 1, kk, vv)) by {
        assert(keys(docs[i])[j] == kk && docs[i].id.index == vv);
    }
    assert forall|k: usize, v: u32| #[trigger] posted(docs, keys, i, j + 1, k, v) <==> (posted(docs, keys, i, j, k, v)
        || (k == kk && v == vv)) by {
        if posted(docs, keys, i, j + 1, k, v) {
            let (d, a) = choose|d: int, a: int|
                #![trigger keys(docs[d])[a], docs[d].id]
                0 <= d < docs.len() && (d < i || (d == i && a < j + 1)) && 0 <= a < keys(docs[d]).len()
                    && keys(docs[d])[a] == k && docs[d].id.index == v;
            if !(d == i && a == j) {
                assert(posted(docs, keys, i, j, k, v));
            }
        }
        if posted(docs, keys, i, j, k, v) {
            let (d, a) = choose|d: int, a: int|
                #![trigger keys(docs[d])[a], docs[d].id]
                0 <= d < docs.len() && (d < i || (d == i && a < j)) && 0 <= a < keys(docs[d]).len()
                    && keys(docs[d])[a] == k && docs[d].id.index == v;
            assert(keys(docs[d])[a] == k && docs[d].id.index == v);
        }
    }
    assert forall|k: usize| #[trigger] q.contains_key(k) <==> r.contains_key(k) by {
        if q.contains_key(k) {
            let v = choose|v: u32| #[trigger] posted(docs, keys, i, j + 1, k, v);
            if k != kk {
                assert(posted(docs, keys, i, j, k, v));
            }
        }
        if p.contains_key(k) {
            let v = choose|v: u32| #[trigger] posted(docs, keys, i, j, k, v);
            assert(posted(docs, keys, i, j + 1, k, v));
        }
    }
    assert forall|k: usize| #[trigger] q.contains_key(k) implies q[k] =~= r[k] by {
        if k == kk {
            if !p.contains_key(k) {
                assert forall|v: u32| !posted(docs, keys, i, j, k, v) by {}
            }
        }
    }
    assert(q =~= r);
}

proof fn lemma_postings_next(docs: Seq<EntityDocument>, keys: spec_fn(EntityDocument) -> Seq<usize>, i: int)
    requires
        0 <= i < docs.len(),
    ensures
        postings_upto(docs, keys, i, keys(docs[i]).len() as int) == postings_upto(docs, keys, i + 1, 0),
{
    let n = keys(docs[i]).len() as int;
    assert forall|k: usize, v: u32| #[trigger] posted(docs, keys, i, n, k, v) == posted(docs, keys, i + 1, 0, k, v) by {
        if posted(docs, keys, i, n, k, v) {
            let (d, a) = choose|d: int, a: int|
                #![trigger keys(docs[d])[a], docs[d].id]
                0 <= d < docs.len() && (d < i || (d == i && a < n)) && 0 <= a < keys(docs[d]).len()
                    && keys(docs[d])[a] == k && docs[d].id.index == v;
            assert(keys(docs[d])[a] == k && docs[d].id.index == v);
        }
        if posted(docs, keys, i + 1, 0, k, v) {
            let (d, a) = choose|d: int, a: int|
                #![trigger keys(docs[d])[a], docs[d].id]
                0 <= d < docs.len() && (d < i + 1 || (d == i + 1 && a < 0)) && 0 <= a < keys(docs[d]).len()
                    && keys(docs[d])[a] == k && docs[d].id.index == v;
            assert(keys(docs[d])[a] == k && docs[d].id.index == v);
        }
    }
    let p = postings_upto(docs, keys, i, n);
    let q = postings_upto(docs, keys, i + 1, 0);
    assert forall|k: usize| #[trigger] p.contains_key(k) <==> q.contains_key(k) by {
        if p.contains_key(k) {
            let v = choose|v: u32| #[trigger] posted(docs, keys, i, n, k, v);
            assert(posted(docs, keys, i + 1, 0, k, v));
        }
        if q.contains_key(k) {
            let v = choose|v: u32| #[trigger] posted(docs, keys, i + 1, 0, k, v);
            assert(posted(docs, keys, i, n, k, v));
        }
    }
    assert forall|k: usize| #[trigger] p.contains_key(k) implies p[k] =~= q[k] by {}
    assert(p =~= q);
}

/// Files `id` under each key, in order.
fn file_under_each<K: RegistryID>(
    list: &mut PostingList<K>,
    keys: &Vec<K>,
    id: EntityID,
    Ghost(docs): Ghost<Seq<EntityDocument>>,
    Ghost(f): Ghost<spec_fn(EntityDocument) -> Seq<usize>>,
    Ghost(i): Ghost<int>,
)
    requires
        0 <= i < docs.len(),
        docs[i].id == id,
        f(docs[i]).len() == keys@.len(),
        forall|a: int| 0 <= a < keys@.len() ==> #[trigger] f(docs[i])[a] == key_of(keys@[a]),
        keys@.len() > 0 ==> id.index <= u32::MAX,
        old(list).contents() == postings_upto(docs, f, i, 0),
    ensures
        final(list).contents() == postings_upto(docs, f, i + 1, 0),
{
    let mut j: usize = 0;
    while j < keys.len()
        invariant
            0 <= i < docs.len(),
            docs[i].id == id,
            f(docs[i]).len() == keys@.len(),
            forall|a: int| 0 <= a < keys@.len() ==> #[trigger] f(docs[i])[a] == key_of(keys@[a]),
            keys@.len() > 0 ==> id.index <= u32::MAX,
            j <= keys@.len(),
            list.contents() == postings_upto(docs, f, i, j as int),
        decreases keys.len() - j,
    {
        proof {
            lemma_postings_step(docs, f, i, j as int);
            assert(f(docs[i])[j as int] == key_of(keys@[j as int]));
        }
        list.insert(keys[j], id);
        j += 1;
    }
    proof {
        lemma_postings_next(docs, f, i);
    }
}

impl IndexBuilder {
    /// Files each document's entity under the normal forms of its aliases
    /// and their words; under the normal forms of its attribute keys (named
    /// by `attribute_keys`, by key index), of their values and their words,
    /// and of `key:value`, for each attribute whose key is named; and under
    /// its tags, its sources, and the targets of its relationships. An entity
    /// filed in a posting list must have an index that fits the bitmaps' 32
    /// bits.
    pub fn build(inputs: &[EntityDocument], attribute_keys: &Vec<String>) -> (r: Indexes)
        requires
            forall|d: int|
                0 <= d < inputs@.len() && (inputs@[d].tags@.len() > 0 || inputs@[d].sources@.len() > 0
                    || inputs@[d].relationships@.len() > 0) ==> (#[trigger] inputs@[d]).id.index
                    <= u32::MAX,
        ensures
            r.alias.filed() == filed_texts(inputs@, |d: EntityDocument| alias_texts(d)),
            r.inverted.filed() == filed_texts(inputs@, |d: EntityDocument| alias_words(d.aliases@)),
            r.attribute_keys.filed() == filed_texts(
                inputs@,
                |d: EntityDocument| attribute_key_texts(attribute_keys@.map_values(|s: String| s@), d.attributes@),
            ),
            r.attribute_values.filed() == filed_texts(
                inputs@,
                |d: EntityDocument| attribute_value_texts(attribute_keys@.map_values(|s: String| s@), d.attributes@),
            ),
            r.attribute_pairs.filed() == filed_texts(
                inputs@,
                |d: EntityDocument| attribute_pair_texts(attribute_keys@.map_values(|s: String| s@), d.attributes@),
            ),
            r.tags.contents() == postings(inputs@, |d: EntityDocument| tag_keys(d)),
            r.sources.contents() == postings(inputs@, |d: EntityDocument| source_keys(d)),
            r.relationships.contents() == postings(inputs@, |d: EntityDocument| target_keys(d)),
            r.relationships_type.slots().len() == 0,
    {
        let ghost docs = inputs@;
        let ghost ft = |d: EntityDocument| tag_keys(d);
        let ghost fs = |d: EntityDocument| source_keys(d);
        let ghost fr = |d: EntityDocument| target_keys(d);
        let ghost ks = attribute_keys@.map_values(|s: String| s@);
        let ghost ga = |d: EntityDocument| alias_texts(d);
        let ghost gw = |d: EntityDocument| alias_words(d.aliases@);
        let ghost gk = |d: EntityDocument| attribute_key_texts(ks, d.attributes@);
        let ghost gv = |d: EntityDocument| attribute_value_texts(ks, d.attributes@);
        let ghost gp = |d: EntityDocument| attribute_pair_texts(ks, d.attributes@);
        let mut alias = TextIndex::new();
        let mut inverted = TextIndex::new();
        let mut key_index = TextIndex::new();
        let mut value_index = TextIndex::new();
        let mut pair_index = TextIndex::new();
        proof {
            lemma_texts_start(docs, ga);
            lemma_texts_start(docs, gw);
            lemma_texts_start(docs, gk);
            lemma_texts_start(docs, gv);
            lemma_texts_start(docs, gp);
        }
        let mut tags: PostingList<TagID> = PostingList::new();
        let mut sources: PostingList<SourceID> = PostingList::new();
        let mut relationships: PostingList<EntityID> = PostingList::new();
        proof {
            assert(postings_upto(docs, ft, 0, 0) =~= Map::<usize, Set<u32>>::empty());
            assert(postings_upto(docs, fs, 0, 0) =~= Map::<usize, Set<u32>>::empty());
            assert(postings_upto(docs, fr, 0, 0) =~= Map::<usize, Set<u32>>::empty());
        }
        let mut i: usize = 0;
        while i < inputs.len()
            invariant
                docs == inputs@,
                ft == (|d: EntityDocument| tag_keys(d)),
                fs == (|d: EntityDocument| source_keys(d)),
                fr == (|d: EntityDocument| target_keys(d)),
                ks == attribute_keys@.map_values(|s: String| s@),
                ga == (|d: EntityDocument| alias_texts(d)),
                gw == (|d: EntityDocument| alias_words(d.aliases@)),
                gk == (|d: EntityDocument| attribute_key_texts(ks, d.attributes@)),
                gv == (|d: EntityDocument| attribute_value_texts(ks, d.attributes@)),
                gp == (|d: EntityDocument| attribute_pair_texts(ks, d.attributes@)),
                alias.filed() == texts_upto(docs, ga, i as int, 0),
                inverted.filed() == texts_upto(docs, gw, i as int, 0),
                key_index.filed() == texts_upto(docs, gk, i as int, 0),
                value_index.filed() == texts_upto(docs, gv, i as int, 0),
                pair_index.filed() == texts_upto(docs, gp, i as int, 0),
                i <= docs.len(),
                forall|d: int|
                    0 <= d < docs.len() && (docs[d].tags@.len() > 0 || docs[d].sources@.len() > 0
                        || docs[d].relationships@.len() > 0) ==> (#[trigger] docs[d]).id.index
                        <= u32::MAX,
                tags.contents() == postings_upto(docs, ft, i as int, 0),
                sources.contents() == postings_upto(docs, fs, i as int, 0),
                relationships.contents() == postings_upto(docs, fr, i as int, 0),
            decreases docs.len() - i,
        {
            let entity = &inputs[i];
            let id = entity.id;
            let mut targets: Vec<EntityID> = Vec::new();
            let mut j: usize = 0;
            while j < entity.relationships.len()
                invariant
                    j <= entity.relationships@.len(),
                    targets@.len() == j,
                    forall|a: int| 0 <= a < j ==> #[trigger] targets@[a] == entity.relationships@[a].target,
                decreases entity.relationships.len() - j,
            {
                targets.push(entity.relationships[j].target);
                j += 1;
            }
            proof {
                assert(docs[i as int] == *entity);
                assert(ft(docs[i as int]) == tag_keys(*entity));
                assert(fs(docs[i as int]) == source_keys(*entity));
                assert(fr(docs[i as int]) == target_keys(*entity));
                assert(tag_keys(*entity).len() == entity.tags@.len());
                assert(source_keys(*entity).len() == entity.sources@.len());
            }
            let aliases = document_alias_texts(entity);
            let words = document_alias_words(entity);
            let (key_texts, value_texts, pair_texts) = document_attribute_texts(entity, attribute_keys);
            file_texts(&mut alias, &aliases, id, Ghost(docs), Ghost(ga), Ghost(i as int));
            file_texts(&mut inverted, &words, id, Ghost(docs), Ghost(gw), Ghost(i as int));
            file_texts(&mut key_index, &key_texts, id, Ghost(docs), Ghost(gk), Ghost(i as int));
            file_texts(&mut value_index, &value_texts, id, Ghost(docs), Ghost(gv), Ghost(i as int));
            file_texts(&mut pair_index, &pair_texts, id, Ghost(docs), Ghost(gp), Ghost(i as int));
            file_under_each(&mut tags, &entity.tags, id, Ghost(docs), Ghost(ft), Ghost(i as int));
            file_under_each(&mut sources, &entity.sources, id, Ghost(docs), Ghost(fs), Ghost(i as int));
            file_under_each(&mut relationships, &targets, id, Ghost(docs), Ghost(fr), Ghost(i as int));
            i += 1;
        }
        Indexes {
            alias,
            inverted,
            attribute_keys: key_index,
            attribute_values: value_index,
            attribute_pairs: pair_index,
            tags,
            sources,
            relationships,
            relationships_type: Registry::default(),
        }
    }
}

} // verus!

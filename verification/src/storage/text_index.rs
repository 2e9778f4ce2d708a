//! Text indexes: which entities are filed under a text, such as a normalised
//! alias, a word of one, or an attribute key or value.
use vstd::prelude::*;

use crate::entity::{value_text, Attribute, EntityDocument};
use crate::ids::EntityID;
use crate::text::{normalize, spec_normalize, split_whitespace, words};

verus! {

/// Texts with the entities filed under them.
#[derive(Debug, Clone)]
pub struct TextIndex {
    pub entries: Vec<(String, EntityID)>,
}

/// The (text, entity) pairs that entries file.
pub open spec fn filed_pairs(entries: Seq<(String, EntityID)>) -> Set<(Seq<char>, EntityID)> {
    Set::new(|p: (Seq<char>, EntityID)| exists|i: int| 0 <= i < entries.len() && #[trigger] entries[i].0@ == p.0 && entries[i].1 == p.1)
}

impl TextIndex {
    /// Which entity is filed under which text.
    pub open spec fn filed(&self) -> Set<(Seq<char>, EntityID)> {
        filed_pairs(self.entries@)
    }

    /// An index with nothing filed.
    pub fn new() -> (r: Self)
        ensures
            r.filed() == Set::<(Seq<char>, EntityID)>::empty(),
    {
        let r = TextIndex { entries: Vec::new() };
        assert(r.filed() =~= Set::<(Seq<char>, EntityID)>::empty());
        r
    }

    /// Files `entity` under `text`.
    pub fn insert(&mut self, text: &str, entity: EntityID)
        ensures
            final(self).filed() == old(self).filed().insert((text@, entity)),
    {
        let ghost before = self.entries@;
        self.entries.push((text.to_owned(), entity));
        assert forall|p: (Seq<char>, EntityID)| #[trigger] self.filed().contains(p) <==> old(self).filed().insert(
            (text@, entity),
        ).contains(p) by {
            if self.filed().contains(p) {
                let i = choose|i: int| 0 <= i < self.entries@.len() && #[trigger] self.entries@[i].0@ == p.0 && self.entries@[i].1 == p.1;
                if i < before.len() {
                    assert(before[i] == self.entries@[i]);
                }
            }
            if old(self).filed().contains(p) {
                let i = choose|i: int| 0 <= i < before.len() && #[trigger] before[i].0@ == p.0 && before[i].1 == p.1;
                assert(self.entries@[i] == before[i]);
            }
            if p == (text@, entity) {
                assert(self.entries@[before.len() as int].0@ == text@);
            }
        }
        assert(self.filed() =~= old(self).filed().insert((text@, entity)));
    }

    /// The entities filed under `text`, each once, in the order they were
    /// first filed.
    pub fn lookup(&self, text: &str) -> (r: Vec<EntityID>)
        ensures
            r@.no_duplicates(),
            forall|e: EntityID| r@.contains(e) <==> self.filed().contains((text@, e)),
    {
        let mut out: Vec<EntityID> = Vec::new();
        let mut i: usize = 0;
        while i < self.entries.len()
            invariant
                i <= self.entries@.len(),
                out@.no_duplicates(),
                forall|e: EntityID| out@.contains(e) <==> exists|m: int|
                    0 <= m < i && #[trigger] self.entries@[m].0@ == text@ && self.entries@[m].1 == e,
            decreases self.entries.len() - i,
        {
            if crate::text::str_eq(self.entries[i].0.as_str(), text) {
                let e = self.entries[i].1;
                let mut seen = false;
                let mut j: usize = 0;
                while j < out.len()
                    invariant
                        j <= out@.len(),
                        seen <==> exists|m: int| 0 <= m < j && out@[m] == e,
                    decreases out.len() - j,
                {
                    if out[j].index == e.index {
                        seen = true;
                    }
                    j += 1;
                }
                let ghost before = out@;
                if !seen {
                    out.push(e);
                    assert forall|a: int, b: int| 0 <= a < b < out@.len() implies out@[a] != out@[b] by {
                        if b == before.len() {
                            assert(before[a] == out@[a]);
                        }
                    }
                }
                assert forall|x: EntityID| out@.contains(x) <==> exists|m: int|
                    0 <= m < i + 1 && #[trigger] self.entries@[m].0@ == text@ && self.entries@[m].1 == x by {
                    if out@.contains(x) {
                        let k = choose|k: int| 0 <= k < out@.len() && out@[k] == x;
                        if k < before.len() {
                            assert(before.contains(x));
                        } else {
                            assert(x == e);
                        }
                    }
                    if exists|m: int| 0 <= m < i + 1 && #[trigger] self.entries@[m].0@ == text@ && self.entries@[m].1 == x {
                        let m = choose|m: int| 0 <= m < i + 1 && #[trigger] self.entries@[m].0@ == text@ && self.entries@[m].1 == x;
                        if m < i {
                            assert(before.contains(x));
                            let k = choose|k: int| 0 <= k < before.len() && before[k] == x;
                            assert(out@[k] == x);
                        } else if seen {
                            let k = choose|k: int| 0 <= k < before.len() && out@[k] == e;
                            assert(out@[k] == x);
                        } else {
                            assert(out@[before.len() as int] == x);
                        }
                    }
                }
            } else {
                assert forall|x: EntityID| out@.contains(x) <==> exists|m: int|
                    0 <= m < i + 1 && #[trigger] self.entries@[m].0@ == text@ && self.entries@[m].1 == x by {
                    if exists|m: int| 0 <= m < i + 1 && #[trigger] self.entries@[m].0@ == text@ && self.entries@[m].1 == x {
                        let m = choose|m: int| 0 <= m < i + 1 && #[trigger] self.entries@[m].0@ == text@ && self.entries@[m].1 == x;
                        assert(m < i);
                    }
                }
            }
            i += 1;
        }
        out
    }
}

impl Default for TextIndex {
    fn default() -> (r: Self)
        ensures
            r.filed() == Set::<(Seq<char>, EntityID)>::empty(),
    {
        TextIndex::new()
    }
}

/// The normal forms of a document's aliases, in order.
pub open spec fn alias_texts(d: EntityDocument) -> Seq<Seq<char>> {
    d.aliases@.map_values(|s: String| spec_normalize(s@))
}

/// The words of the normal forms of aliases, alias by alias.
pub open spec fn alias_words(aliases: Seq<String>) -> Seq<Seq<char>>
    decreases aliases.len(),
{
    if aliases.len() == 0 {
        seq![]
    } else {
        alias_words(aliases.drop_last()) + words(spec_normalize(aliases.last()@))
    }
}

/// The normal form of an attribute value's text.
pub open spec fn value_normal(a: Attribute) -> Seq<char> {
    spec_normalize(value_text(a.value))
}

/// The normal form of an attribute's key name, where `keys` names it.
pub open spec fn key_normal(keys: Seq<Seq<char>>, a: Attribute) -> Option<Seq<char>> {
    if a.key.index < keys.len() {
        Some(spec_normalize(keys[a.key.index as int]))
    } else {
        None
    }
}

/// The key texts of the attributes whose key is named, in order.
pub open spec fn attribute_key_texts(keys: Seq<Seq<char>>, attrs: Seq<Attribute>) -> Seq<Seq<char>>
    decreases attrs.len(),
{
    if attrs.len() == 0 {
        seq![]
    } else {
        attribute_key_texts(keys, attrs.drop_last()) + match key_normal(keys, attrs.last()) {
            Some(k) => seq![k],
            None => seq![],
        }
    }
}

/// The value texts of the attributes whose key is named: each value's
/// normal form, then its words.
pub open spec fn attribute_value_texts(keys: Seq<Seq<char>>, attrs: Seq<Attribute>) -> Seq<Seq<char>>
    decreases attrs.len(),
{
    if attrs.len() == 0 {
        seq![]
    } else {
        attribute_value_texts(keys, attrs.drop_last()) + match key_normal(keys, attrs.last()) {
            Some(k) => seq![value_normal(attrs.last())] + words(value_normal(attrs.last())),
            None => seq![],
        }
    }
}

/// The `key:value` texts of the attributes whose key is named, in order.
pub open spec fn attribute_pair_texts(keys: Seq<Seq<char>>, attrs: Seq<Attribute>) -> Seq<Seq<char>>
    decreases attrs.len(),
{
    if attrs.len() == 0 {
        seq![]
    } else {
        attribute_pair_texts(keys, attrs.drop_last()) + match key_normal(keys, attrs.last()) {
            Some(k) => seq![k + seq![':'] + value_normal(attrs.last())],
            None => seq![],
        }
    }
}

/// Each document's entity filed under each of its texts, up to text `j`
/// of document `i`.
pub open spec fn texts_upto(
    docs: Seq<EntityDocument>,
    texts: spec_fn(EntityDocument) -> Seq<Seq<char>>,
    i: int,
    j: int,
) -> Set<(Seq<char>, EntityID)> {
    Set::new(
        |p: (Seq<char>, EntityID)|
            exists|d: int, a: int|
                #![trigger texts(docs[d])[a], docs[d].id]
                0 <= d < docs.len() && (d < i || (d == i && a < j)) && 0 <= a < texts(docs[d]).len()
                    && texts(docs[d])[a] == p.0 && docs[d].id == p.1,
    )
}

/// Each document's entity filed under each of its texts.
pub open spec fn filed_texts(docs: Seq<EntityDocument>, texts: spec_fn(EntityDocument) -> Seq<Seq<char>>) -> Set<
    (Seq<char>, EntityID),
> {
    texts_upto(docs, texts, docs.len() as int, 0)
}

proof fn lemma_texts_step(
    docs: Seq<EntityDocument>,
    texts: spec_fn(EntityDocument) -> Seq<Seq<char>>,
    i: int,
    j: int,
)
    requires
        0 <= i < docs.len(),
        0 <= j < texts(docs[i]).len(),
    ensures
        texts_upto(docs, texts, i, j + 1) == texts_upto(docs, texts, i, j).insert((texts(docs[i])[j], docs[i].id)),
{
    let q = (texts(docs[i])[j], docs[i].id);
    assert forall|p: (Seq<char>, EntityID)| #[trigger] texts_upto(docs, texts, i, j + 1).contains(p) <==> texts_upto(
        docs,
        texts,
        i,
        j,
    ).insert(q).contains(p) by {
        if texts_upto(docs, texts, i, j + 1).contains(p) {
            let (d, a) = choose|d: int, a: int|
                #![trigger texts(docs[d])[a], docs[d].id]
                0 <= d < docs.len() && (d < i || (d == i && a < j + 1)) && 0 <= a < texts(docs[d]).len()
                    && texts(docs[d])[a] == p.0 && docs[d].id == p.1;
            if !(d == i && a == j) {
                assert(texts_upto(docs, texts, i, j).contains(p));
            }
        }
        if texts_upto(docs, texts, i, j).contains(p) {
            let (d, a) = choose|d: int, a: int|
                #![trigger texts(docs[d])[a], docs[d].id]
                0 <= d < docs.len() && (d < i || (d == i && a < j)) && 0 <= a < texts(docs[d]).len()
                    && texts(docs[d])[a] == p.0 && docs[d].id == p.1;
            assert(texts(docs[d])[a] == p.0 && docs[d].id == p.1);
        }
        if p == q {
            assert(texts(docs[i])[j] == p.0 && docs[i].id == p.1);
        }
    }
    assert(texts_upto(docs, texts, i, j + 1) =~= texts_upto(docs, texts, i, j).insert(q));
}

proof fn lemma_texts_next(docs: Seq<EntityDocument>, texts: spec_fn(EntityDocument) -> Seq<Seq<char>>, i: int)
    requires
        0 <= i < docs.len(),
    ensures
        texts_upto(docs, texts, i, texts(docs[i]).len() as int) == texts_upto(docs, texts, i + 1, 0),
{
    let n = texts(docs[i]).len() as int;
    assert forall|p: (Seq<char>, EntityID)| #[trigger] texts_upto(docs, texts, i, n).contains(p) <==> texts_upto(
        docs,
        texts,
        i + 1,
        0,
    ).contains(p) by {
        if texts_upto(docs, texts, i, n).contains(p) {
            let (d, a) = choose|d: int, a: int|
                #![trigger texts(docs[d])[a], docs[d].id]
                0 <= d < docs.len() && (d < i || (d == i && a < n)) && 0 <= a < texts(docs[d]).len()
                    && texts(docs[d])[a] == p.0 && docs[d].id == p.1;
            assert(texts(docs[d])[a] == p.0 && docs[d].id == p.1);
        }
        if texts_upto(docs, texts, i + 1, 0).contains(p) {
            let (d, a) = choose|d: int, a: int|
                #![trigger texts(docs[d])[a], docs[d].id]
                0 <= d < docs.len() && (d < i + 1 || (d == i + 1 && a < 0)) && 0 <= a < texts(docs[d]).len()
                    && texts(docs[d])[a] == p.0 && docs[d].id == p.1;
            assert(texts(docs[d])[a] == p.0 && docs[d].id == p.1);
        }
    }
    assert(texts_upto(docs, texts, i, n) =~= texts_upto(docs, texts, i + 1, 0));
}

/// Nothing is filed before the first document.
pub proof fn lemma_texts_start(docs: Seq<EntityDocument>, texts: spec_fn(EntityDocument) -> Seq<Seq<char>>)
    ensures
        texts_upto(docs, texts, 0, 0) == Set::<(Seq<char>, EntityID)>::empty(),
{
    assert(texts_upto(docs, texts, 0, 0) =~= Set::<(Seq<char>, EntityID)>::empty());
}

/// Files `id` under each text, in order.
pub fn file_texts(
    index: &mut TextIndex,
    texts: &Vec<String>,
    id: EntityID,
    Ghost(docs): Ghost<Seq<EntityDocument>>,
    Ghost(f): Ghost<spec_fn(EntityDocument) -> Seq<Seq<char>>>,
    Ghost(i): Ghost<int>,
)
    requires
        0 <= i < docs.len(),
        docs[i].id == id,
        texts@.map_values(|s: String| s@) == f(docs[i]),
        old(index).filed() == texts_upto(docs, f, i, 0),
    ensures
        final(index).filed() == texts_upto(docs, f, i + 1, 0),
{
    let mut j: usize = 0;
    while j < texts.len()
        invariant
            0 <= i < docs.len(),
            docs[i].id == id,
            texts@.map_values(|s: String| s@) == f(docs[i]),
            j <= texts@.len(),
            index.filed() == texts_upto(docs, f, i, j as int),
        decreases texts.len() - j,
    {
        proof {
            lemma_texts_step(docs, f, i, j as int);
            assert(f(docs[i])[j as int] == texts@[j as int]@);
        }
        index.insert(texts[j].as_str(), id);
        j += 1;
    }
    proof {
        lemma_texts_next(docs, f, i);
    }
}

/// Appends strings to a list.
fn extend_strings(out: &mut Vec<String>, more: Vec<String>)
    ensures
        final(out)@.map_values(|s: String| s@) == old(out)@.map_values(|s: String| s@) + more@.map_values(
            |s: String| s@,
        ),
{
    let mut rest = more;
    let ghost all = rest@;
    let mut k: usize = 0;
    let n = rest.len();
    while k < n
        invariant
            n == all.len(),
            k <= n,
            rest@ == all.skip(k as int),
            out@.map_values(|s: String| s@) == old(out)@.map_values(|s: String| s@) + all.take(k as int).map_values(
                |s: String| s@,
            ),
        decreases n - k,
    {
        let s = rest.remove(0);
        assert(all.skip(k as int)[0] == all[k as int]);
        assert(rest@ =~= all.skip(k + 1));
        let ghost before = out@;
        out.push(s);
        assert(out@.map_values(|s: String| s@) =~= before.map_values(|s: String| s@).push(all[k as int]@));
        assert(all.take(k + 1).map_values(|s: String| s@) =~= all.take(k as int).map_values(|s: String| s@).push(
            all[k as int]@,
        ));
        k += 1;
    }
    assert(all.take(n as int) =~= all);
}

/// The normal forms of a document's aliases.
pub fn document_alias_texts(d: &EntityDocument) -> (r: Vec<String>)
    ensures
        r@.map_values(|s: String| s@) == alias_texts(*d),
{
    let mut out: Vec<String> = Vec::new();
    let mut i: usize = 0;
    while i < d.aliases.len()
        invariant
            i <= d.aliases@.len(),
            out@.map_values(|s: String| s@) =~= d.aliases@.take(i as int).map_values(|s: String| spec_normalize(s@)),
        decreases d.aliases.len() - i,
    {
        let ghost before = out@;
        out.push(normalize(d.aliases[i].as_str()));
        assert(out@.map_values(|s: String| s@) =~= before.map_values(|s: String| s@).push(
            spec_normalize(d.aliases@[i as int]@),
        ));
        assert(d.aliases@.take(i + 1).map_values(|s: String| spec_normalize(s@)) =~= d.aliases@.take(
            i as int,
        ).map_values(|s: String| spec_normalize(s@)).push(spec_normalize(d.aliases@[i as int]@)));
        i += 1;
    }
    assert(d.aliases@.take(d.aliases.len() as int) =~= d.aliases@);
    out
}

/// The words of the normal forms of a document's aliases, alias by alias.
pub fn document_alias_words(d: &EntityDocument) -> (r: Vec<String>)
    ensures
        r@.map_values(|s: String| s@) == alias_words(d.aliases@),
{
    let mut out: Vec<String> = Vec::new();
    let mut i: usize = 0;
    while i < d.aliases.len()
        invariant
            i <= d.aliases@.len(),
            out@.map_values(|s: String| s@) == alias_words(d.aliases@.take(i as int)),
        decreases d.aliases.len() - i,
    {
        assert(d.aliases@.take(i + 1).drop_last() =~= d.aliases@.take(i as int));
        let normal = normalize(d.aliases[i].as_str());
        let ws = split_whitespace(normal.as_str());
        extend_strings(&mut out, ws);
        i += 1;
    }
    assert(d.aliases@.take(d.aliases.len() as int) =~= d.aliases@);
    out
}

/// The key, value and `key:value` texts of a document's attributes whose
/// key `keys` names.
pub fn document_attribute_texts(d: &EntityDocument, keys: &Vec<String>) -> (r: (
    Vec<String>,
    Vec<String>,
    Vec<String>,
))
    ensures
        r.0@.map_values(|s: String| s@) == attribute_key_texts(keys@.map_values(|s: String| s@), d.attributes@),
        r.1@.map_values(|s: String| s@) == attribute_value_texts(keys@.map_values(|s: String| s@), d.attributes@),
        r.2@.map_values(|s: String| s@) == attribute_pair_texts(keys@.map_values(|s: String| s@), d.attributes@),
{
    let ghost ks = keys@.map_values(|s: String| s@);
    let mut key_texts: Vec<String> = Vec::new();
    let mut value_texts: Vec<String> = Vec::new();
    let mut pair_texts: Vec<String> = Vec::new();
    let mut i: usize = 0;
    while i < d.attributes.len()
        invariant
            i <= d.attributes@.len(),
            ks == keys@.map_values(|s: String| s@),
            key_texts@.map_values(|s: String| s@) == attribute_key_texts(ks, d.attributes@.take(i as int)),
            value_texts@.map_values(|s: String| s@) == attribute_value_texts(ks, d.attributes@.take(i as int)),
            pair_texts@.map_values(|s: String| s@) == attribute_pair_texts(ks, d.attributes@.take(i as int)),
        decreases d.attributes.len() - i,
    {
        let ghost prefix = d.attributes@.take(i + 1);
        assert(prefix.drop_last() =~= d.attributes@.take(i as int));
        assert(prefix.last() == d.attributes@[i as int]);
        let attribute = &d.attributes[i];
        let k = attribute.key.index;
        if k < keys.len() {
            let key = normalize(keys[k].as_str());
            let value = normalize(attribute.value.to_text().as_str());
            let mut pair_chars = crate::text::chars_of(key.as_str());
            pair_chars.push(':');
            let value_chars = crate::text::chars_of(value.as_str());
            let mut m: usize = 0;
            let ghost head = pair_chars@;
            while m < value_chars.len()
                invariant
                    m <= value_chars@.len(),
                    pair_chars@ =~= head + value_chars@.take(m as int),
                decreases value_chars.len() - m,
            {
                pair_chars.push(value_chars[m]);
                m += 1;
            }
            assert(value_chars@.take(value_chars.len() as int) =~= value_chars@);
            let pair = crate::text::string_from_chars(pair_chars.as_slice());
            assert(ks[k as int] == keys@[k as int]@);
            let ghost kb = key_texts@;
            let ghost pb = pair_texts@;
            key_texts.push(key);
            proof {
                assert(key_texts@.map_values(|s: String| s@) =~= kb.map_values(|s: String| s@) + seq![key@]);
            }
            let ws = split_whitespace(value.as_str());
            let ghost vv = value@;
            let mut more: Vec<String> = Vec::new();
            more.push(value);
            assert(more@.map_values(|s: String| s@) =~= seq![vv]);
            extend_strings(&mut more, ws);
            extend_strings(&mut value_texts, more);
            pair_texts.push(pair);
            proof {
                assert(pair_texts@.map_values(|s: String| s@) =~= pb.map_values(|s: String| s@) + seq![pair@]);
                assert(pair@ =~= key@ + seq![':'] + vv);
            }
        } else {
            proof {
                assert(key_texts@.map_values(|s: String| s@) =~= key_texts@.map_values(|s: String| s@) + Seq::<
                    Seq<char>,
                >::empty());
                assert(value_texts@.map_values(|s: String| s@) =~= value_texts@.map_values(|s: String| s@) + Seq::<
                    Seq<char>,
                >::empty());
                assert(pair_texts@.map_values(|s: String| s@) =~= pair_texts@.map_values(|s: String| s@) + Seq::<
                    Seq<char>,
                >::empty());
            }
        }
        i += 1;
    }
    assert(d.attributes@.take(d.attributes.len() as int) =~= d.attributes@);
    (key_texts, value_texts, pair_texts)
}

} // verus!

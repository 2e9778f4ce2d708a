//! Merging two databases: each entity of the left database, then each of
//! the right, is turned back into an entity input, naming its tags, sources,
//! attribute keys and relationship types by their registered names, so that
//! the output database interns them afresh. An entity whose id the output
//! already holds is skipped.
use vstd::prelude::*;

use crate::engine::Database;
use crate::entity::{
    value_text, Attribute, AttributesInput, EntityDocument, EntityInput, Relationship, RelationshipInput,
    RelationshipType, SourceInput,
};
use crate::ids::{EntityID, RegistryID};
use crate::version::api::MergeReport;

verus! {

/// The name a registry holds in the slot of `id`, if any.
pub open spec fn name_at<ID: RegistryID>(slots: Seq<Option<Seq<char>>>, id: ID) -> Option<Seq<char>> {
    if id.slot() < slots.len() {
        slots[id.slot() as int]
    } else {
        None
    }
}

/// The names of the ids that have one, in order.
pub open spec fn names_of_ids<ID: RegistryID>(slots: Seq<Option<Seq<char>>>, ids: Seq<ID>) -> Seq<Seq<char>>
    decreases ids.len(),
{
    if ids.len() == 0 {
        seq![]
    } else {
        let rest = names_of_ids(slots, ids.drop_last());
        match name_at(slots, ids.last()) {
            Some(n) => rest.push(n),
            None => rest,
        }
    }
}

/// Key name and value text of the attributes whose key has a name, in order.
pub open spec fn attribute_texts(slots: Seq<Option<Seq<char>>>, attrs: Seq<Attribute>) -> Seq<(Seq<char>, Seq<char>)>
    decreases attrs.len(),
{
    if attrs.len() == 0 {
        seq![]
    } else {
        let rest = attribute_texts(slots, attrs.drop_last());
        match name_at(slots, attrs.last().key) {
            Some(k) => rest.push((k, value_text(attrs.last().value))),
            None => rest,
        }
    }
}

/// Kind name and target of the relationships of a registered custom kind,
/// in order; relationships of the built-in kinds are left out.
pub open spec fn custom_relationships(slots: Seq<Option<Seq<char>>>, rels: Seq<Relationship>) -> Seq<(Seq<char>, EntityID)>
    decreases rels.len(),
{
    if rels.len() == 0 {
        seq![]
    } else {
        let rest = custom_relationships(slots, rels.drop_last());
        match rels.last().kind {
            RelationshipType::Custom(id) => match name_at(slots, id) {
                Some(k) => rest.push((k, rels.last().target)),
                None => rest,
            },
            _ => rest,
        }
    }
}

/// `input` is what `entity` of `db` turns back into.
pub open spec fn is_input_of(input: EntityInput, db: Database, entity: EntityDocument) -> bool {
    &&& input.id == entity.id
    &&& input.aliases@.map_values(|s: String| s@) == entity.aliases@.map_values(|s: String| s@)
    &&& input.tags@.map_values(|s: String| s@) == names_of_ids(db.tags.slots(), entity.tags@)
    &&& input.sources@.map_values(|s: SourceInput| s.provider@) == names_of_ids(
        db.sources.slots(),
        entity.sources@,
    )
    &&& forall|i: int|
        0 <= i < input.sources@.len() ==> !(#[trigger] input.sources@[i]).verified
            && input.sources@[i].created is None && input.sources@[i].updated is None
    &&& input.attributes@.map_values(|a: AttributesInput| (a.key@, a.value@)) == attribute_texts(
        db.attribute_keys.slots(),
        entity.attributes@,
    )
    &&& input.relationships@.map_values(|r: RelationshipInput| (r.kind@, r.target))
        == custom_relationships(db.relationship_types.slots(), entity.relationships@)
}

/// An entity of `db` as an entity input: its names looked up in the
/// registries of `db`. Ids without a registered name are left out, and so
/// are relationships of the built-in kinds.
pub fn entity_to_input(database: &Database, entity: &EntityDocument) -> (r: EntityInput)
    ensures
        is_input_of(r, *database, *entity),
{
    let mut aliases: Vec<String> = Vec::new();
    let mut i: usize = 0;
    while i < entity.aliases.len()
        invariant
            i <= entity.aliases@.len(),
            aliases@.map_values(|s: String| s@) =~= entity.aliases@.take(i as int).map_values(|s: String| s@),
        decreases entity.aliases.len() - i,
    {
        let ghost before = aliases@;
        aliases.push(entity.aliases[i].as_str().to_owned());
        assert(aliases@.map_values(|s: String| s@) =~= before.map_values(|s: String| s@).push(
            entity.aliases@[i as int]@,
        ));
        assert(entity.aliases@.take(i + 1).map_values(|s: String| s@) =~= entity.aliases@.take(
            i as int,
        ).map_values(|s: String| s@).push(entity.aliases@[i as int]@));
        i += 1;
    }
    assert(entity.aliases@.take(entity.aliases.len() as int) =~= entity.aliases@);

    let mut tags: Vec<String> = Vec::new();
    let mut i: usize = 0;
    while i < entity.tags.len()
        invariant
            i <= entity.tags@.len(),
            tags@.map_values(|s: String| s@) =~= names_of_ids(database.tags.slots(), entity.tags@.take(i as int)),
        decreases entity.tags.len() - i,
    {
        assert(entity.tags@.take(i + 1).drop_last() =~= entity.tags@.take(i as int));
        match database.tags.get(entity.tags[i]) {
            Some(name) => tags.push(name.to_owned()),
            None => {},
        }
        i += 1;
    }
    assert(entity.tags@.take(entity.tags.len() as int) =~= entity.tags@);

    let mut sources: Vec<SourceInput> = Vec::new();
    let mut i: usize = 0;
    while i < entity.sources.len()
        invariant
            i <= entity.sources@.len(),
            sources@.map_values(|s: SourceInput| s.provider@) =~= names_of_ids(
                database.sources.slots(),
                entity.sources@.take(i as int),
            ),
            forall|m: int|
                0 <= m < sources@.len() ==> !(#[trigger] sources@[m]).verified && sources@[m].created is None
                    && sources@[m].updated is None,
        decreases entity.sources.len() - i,
    {
        assert(entity.sources@.take(i + 1).drop_last() =~= entity.sources@.take(i as int));
        match database.sources.get(entity.sources[i]) {
            Some(provider) => sources.push(
                SourceInput { provider: provider.to_owned(), verified: false, created: None, updated: None },
            ),
            None => {},
        }
        i += 1;
    }
    assert(entity.sources@.take(entity.sources.len() as int) =~= entity.sources@);

    let mut attributes: Vec<AttributesInput> = Vec::new();
    let mut i: usize = 0;
    while i < entity.attributes.len()
        invariant
            i <= entity.attributes@.len(),
            attributes@.map_values(|a: AttributesInput| (a.key@, a.value@)) =~= attribute_texts(
                database.attribute_keys.slots(),
                entity.attributes@.take(i as int),
            ),
        decreases entity.attributes.len() - i,
    {
        assert(entity.attributes@.take(i + 1).drop_last() =~= entity.attributes@.take(i as int));
        let attribute = &entity.attributes[i];
        match database.attribute_keys.get(attribute.key) {
            Some(key) => attributes.push(
                AttributesInput { key: key.to_owned(), value: attribute.value.to_text() },
            ),
            None => {},
        }
        i += 1;
    }
    assert(entity.attributes@.take(entity.attributes.len() as int) =~= entity.attributes@);

    let mut relationships: Vec<RelationshipInput> = Vec::new();
    let mut i: usize = 0;
    while i < entity.relationships.len()
        invariant
            i <= entity.relationships@.len(),
            relationships@.map_values(|r: RelationshipInput| (r.kind@, r.target)) =~= custom_relationships(
                database.relationship_types.slots(),
                entity.relationships@.take(i as int),
            ),
        decreases entity.relationships.len() - i,
    {
        assert(entity.relationships@.take(i + 1).drop_last() =~= entity.relationships@.take(i as int));
        let relationship = entity.relationships[i];
        match relationship.kind {
            RelationshipType::Custom(id) => match database.relationship_types.get(id) {
                Some(kind) => relationships.push(
                    RelationshipInput { kind: kind.to_owned(), target: relationship.target },
                ),
                None => {},
            },
            _ => {},
        }
        i += 1;
    }
    assert(entity.relationships@.take(entity.relationships.len() as int) =~= entity.relationships@);

    EntityInput { id: entity.id, aliases, tags, sources, attributes, relationships }
}

/// The ids of documents, in order.
pub open spec fn ids_of(docs: Seq<EntityDocument>) -> Seq<EntityID> {
    docs.map_values(|d: EntityDocument| d.id)
}

/// The positions of the first occurrence of each id, in order.
pub open spec fn first_positions(ids: Seq<EntityID>) -> Seq<int>
    decreases ids.len(),
{
    if ids.len() == 0 {
        seq![]
    } else {
        let init = ids.drop_last();
        if init.contains(ids.last()) {
            first_positions(init)
        } else {
            first_positions(init).push(ids.len() - 1)
        }
    }
}

/// Merges the entities of `left`, then those of `right`, into a fresh
/// database: the inputs to insert, in order, and how many entities were
/// added and skipped. An entity is skipped where an earlier one, of either
/// database, had the same id.
pub fn merge_databases(left: &Database, right: &Database) -> (r: (MergeReport, Vec<EntityInput>))
    requires
        left.entities@.len() + right.entities@.len() <= usize::MAX,
    ensures
        ({
            let all = left.entities@ + right.entities@;
            let firsts = first_positions(ids_of(all));
            &&& r.0.entities_added == firsts.len()
            &&& r.0.entities_added + r.0.entities_skipped == all.len()
            &&& r.1@.len() == firsts.len()
            &&& forall|m: int|
                0 <= m < firsts.len() ==> is_input_of(
                    #[trigger] r.1@[m],
                    if firsts[m] < left.entities@.len() {
                        *left
                    } else {
                        *right
                    },
                    all[firsts[m]],
                )
        }),
{
    let ghost all = left.entities@ + right.entities@;
    let mut report = MergeReport { entities_added: 0, entities_skipped: 0 };
    let mut inputs: Vec<EntityInput> = Vec::new();
    let mut seen: Vec<EntityID> = Vec::new();
    let mut side: usize = 0;
    while side < 2
        invariant
            all == left.entities@ + right.entities@,
            all.len() <= usize::MAX,
            side <= 2,
            ({
                let k = if side == 0 {
                    0
                } else if side == 1 {
                    left.entities@.len() as int
                } else {
                    all.len() as int
                };
                merged_upto(all, left.entities@.len() as int, *left, *right, k, report, inputs@, seen@)
            }),
        decreases 2 - side,
    {
        let db = if side == 0 { left } else { right };
        let ghost base: int = if side == 0 { 0 } else { left.entities@.len() as int };
        let mut i: usize = 0;
        while i < db.entities.len()
            invariant
                all == left.entities@ + right.entities@,
                all.len() <= usize::MAX,
                side < 2,
                db == (if side == 0 { left } else { right }),
                base == (if side == 0 { 0 } else { left.entities@.len() as int }),
                i <= db.entities@.len(),
                merged_upto(all, left.entities@.len() as int, *left, *right, base + i, report, inputs@, seen@),
            decreases db.entities.len() - i,
        {
            let entity = &db.entities[i];
            let ghost k = base + i;
            proof {
                assert(all[k] == *entity);
            }
            let mut found = false;
            let mut j: usize = 0;
            while j < seen.len()
                invariant
                    j <= seen@.len(),
                    found <==> exists|m: int| 0 <= m < j && #[trigger] seen@[m] == entity.id,
                decreases seen.len() - j,
            {
                if seen[j].index == entity.id.index {
                    found = true;
                }
                j += 1;
            }
            let ghost old_inputs = inputs@;
            let ghost old_seen = seen@;
            let ghost old_report = report;
            if found {
                report.entities_skipped = report.entities_skipped + 1;
            } else {
                let input = entity_to_input(db, entity);
                proof {
                    if side == 0 {
                        assert(k < left.entities@.len());
                    } else {
                        assert(k >= left.entities@.len());
                    }
                }
                inputs.push(input);
                seen.push(entity.id);
                report.entities_added = report.entities_added + 1;
                assert(inputs@.drop_last() =~= old_inputs);
                assert(inputs@.last() == input);
            }
            proof {
                lemma_merge_step(all, left.entities@.len() as int, *left, *right, k, old_report, old_inputs, old_seen, report, inputs@, seen@, found);
            }
            i += 1;
        }
        side += 1;
    }
    assert(all.take(all.len() as int) =~= all);
    (report, inputs)
}

/// The state of a merge after the first `k` entities of `all`.
pub open spec fn merged_upto(
    all: Seq<EntityDocument>,
    n_left: int,
    left: Database,
    right: Database,
    k: int,
    report: MergeReport,
    inputs: Seq<EntityInput>,
    seen: Seq<EntityID>,
) -> bool {
    let firsts = first_positions(ids_of(all.take(k)));
    &&& 0 <= k <= all.len()
    &&& report.entities_added == firsts.len()
    &&& report.entities_added + report.entities_skipped == k
    &&& inputs.len() == firsts.len()
    &&& seen.len() == firsts.len()
    &&& forall|m: int| 0 <= m < firsts.len() ==> 0 <= #[trigger] firsts[m] < k
    &&& forall|m: int| 0 <= m < firsts.len() ==> #[trigger] seen[m] == all[firsts[m]].id
    &&& forall|id: EntityID| seen.contains(id) <==> ids_of(all.take(k)).contains(id)
    &&& forall|m: int|
        0 <= m < firsts.len() ==> is_input_of(
            #[trigger] inputs[m],
            if firsts[m] < n_left {
                left
            } else {
                right
            },
            all[firsts[m]],
        )
}

proof fn lemma_merge_step(
    all: Seq<EntityDocument>,
    n_left: int,
    left: Database,
    right: Database,
    k: int,
    report: MergeReport,
    inputs: Seq<EntityInput>,
    seen: Seq<EntityID>,
    report2: MergeReport,
    inputs2: Seq<EntityInput>,
    seen2: Seq<EntityID>,
    found: bool,
)
    requires
        0 <= k < all.len(),
        merged_upto(all, n_left, left, right, k, report, inputs, seen),
        found <==> seen.contains(all[k].id),
        found ==> report2.entities_added == report.entities_added && report2.entities_skipped
            == report.entities_skipped + 1 && inputs2 == inputs && seen2 == seen,
        !found ==> report2.entities_added == report.entities_added + 1 && report2.entities_skipped
            == report.entities_skipped && seen2 == seen.push(all[k].id) && inputs2.len() == inputs.len() + 1
            && inputs2.drop_last() == inputs && is_input_of(
            inputs2.last(),
            if k < n_left {
                left
            } else {
                right
            },
            all[k],
        ),
    ensures
        merged_upto(all, n_left, left, right, k + 1, report2, inputs2, seen2),
{
    let ids = ids_of(all.take(k + 1));
    let init = ids.drop_last();
    assert(init =~= ids_of(all.take(k)));
    assert(ids.last() == all[k].id);
    let firsts = first_positions(ids_of(all.take(k)));
    let firsts2 = first_positions(ids);
    if found {
        assert(firsts2 == firsts);
        assert forall|id: EntityID| seen2.contains(id) <==> ids.contains(id) by {
            if ids.contains(id) {
                let w = choose|w: int| 0 <= w < ids.len() && ids[w] == id;
                if w < k {
                    assert(init[w] == id);
                }
            }
            if init.contains(id) {
                let w = choose|w: int| 0 <= w < init.len() && init[w] == id;
                assert(ids[w] == id);
            }
        }
    } else {
        assert(firsts2 == firsts.push(k));
        assert forall|m: int| 0 <= m < firsts2.len() implies #[trigger] seen2[m] == all[firsts2[m]].id by {
            if m < firsts.len() {
                assert(seen2[m] == seen[m]);
            }
        }
        assert forall|id: EntityID| seen2.contains(id) <==> ids.contains(id) by {
            if ids.contains(id) {
                let w = choose|w: int| 0 <= w < ids.len() && ids[w] == id;
                if w < k {
                    assert(init[w] == id);
                    assert(seen.contains(id));
                    let v = choose|v: int| 0 <= v < seen.len() && seen[v] == id;
                    assert(seen2[v] == id);
                } else {
                    assert(seen2[seen.len() as int] == id);
                }
            }
            if seen2.contains(id) {
                let v = choose|v: int| 0 <= v < seen2.len() && seen2[v] == id;
                if v < seen.len() {
                    assert(seen[v] == id);
                    assert(seen.contains(id));
                    assert(init.contains(id));
                    let w = choose|w: int| 0 <= w < init.len() && init[w] == id;
                    assert(ids[w] == id);
                } else {
                    assert(ids[k] == id);
                }
            }
        }
        assert forall|m: int| 0 <= m < firsts2.len() implies is_input_of(
            #[trigger] inputs2[m],
            if firsts2[m] < n_left {
                left
            } else {
                right
            },
            all[firsts2[m]],
        ) by {
            if m < firsts.len() {
                assert(inputs2[m] == inputs2.drop_last()[m]);
            }
        }
    }
}

} // verus!

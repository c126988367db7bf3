//! Entity-relationship diagrams handed to the diagram view: their validation, the
//! fields that relationships start from, and the layout level of each entity.

use vstd::prelude::*;

use crate::levels::{assoc_map, dependency_levels, distinct_keys, level_rounds};
use crate::seqs::pair_views;
use crate::text::{concat_str, copy_str, is_blank, str_equal, str_is_blank, string_push_str};

verus! {

/// A field (column) of an entity.
#[derive(Clone, Debug, PartialEq, Eq)]
pub struct ErField {
    pub name: String,
    pub data_type: String,
    pub nullable: bool,
    pub primary_key: bool,
    pub unique: bool,
    pub comment: Option<String>,
}

/// An entity (table) of a diagram.
#[derive(Clone, Debug, PartialEq, Eq)]
pub struct ErEntity {
    pub id: String,
    pub name: String,
    pub comment: Option<String>,
    pub fields: Vec<ErField>,
}

/// How many rows of each side a relationship joins.
#[derive(Clone, Copy, Debug, PartialEq, Eq)]
pub enum ErRelationshipKind {
    OneToOne,
    OneToMany,
    ManyToOne,
    ManyToMany,
}

/// A relationship from a field of one entity to a field of another.
#[derive(Clone, Debug, PartialEq, Eq)]
pub struct ErRelationship {
    pub id: String,
    pub from_entity: String,
    pub from_field: String,
    pub to_entity: String,
    pub to_field: String,
    pub kind: ErRelationshipKind,
}

/// A diagram: entities and the relationships between them.
#[derive(Clone, Debug, PartialEq, Eq)]
pub struct ErDiagram {
    pub entities: Vec<ErEntity>,
    pub relationships: Vec<ErRelationship>,
}

impl Default for ErDiagram {
    /// The empty diagram.
    fn default() -> (d: Self)
        ensures
            d.entities@.len() == 0,
            d.relationships@.len() == 0,
    {
        ErDiagram { entities: Vec::new(), relationships: Vec::new() }
    }
}

/// The end of a relationship that a validation error is about.
#[derive(Clone, Copy, Debug, PartialEq, Eq)]
pub enum Endpoint {
    Source,
    Target,
}

/// The word for an endpoint in error messages.
pub open spec fn endpoint_word(e: Endpoint) -> Seq<char> {
    match e {
        Endpoint::Source => "source"@,
        Endpoint::Target => "target"@,
    }
}

impl Endpoint {
    /// The word for this endpoint in error messages.
    pub fn word(&self) -> (r: &'static str)
        ensures
            r@ == endpoint_word(*self),
    {
        match self {
            Endpoint::Source => "source",
            Endpoint::Target => "target",
        }
    }
}

/// Why a diagram is refused.
#[derive(Clone, Debug, PartialEq, Eq)]
pub enum ErDiagramError {
    EmptyEntityId,
    DuplicateEntityId { entity: String },
    EmptyFieldName { entity: String },
    DuplicateField { entity: String, field: String },
    EmptyRelationshipId,
    DuplicateRelationshipId { relationship: String },
    UnknownEntity { relationship: String, endpoint: Endpoint, entity: String },
    UnknownField { relationship: String, endpoint: Endpoint, entity: String, field: String },
}

/// The model of an [`ErDiagramError`].
pub enum DiagramErrorView {
    EmptyEntityId,
    DuplicateEntityId { entity: Seq<char> },
    EmptyFieldName { entity: Seq<char> },
    DuplicateField { entity: Seq<char>, field: Seq<char> },
    EmptyRelationshipId,
    DuplicateRelationshipId { relationship: Seq<char> },
    UnknownEntity { relationship: Seq<char>, endpoint: Endpoint, entity: Seq<char> },
    UnknownField { relationship: Seq<char>, endpoint: Endpoint, entity: Seq<char>, field: Seq<char> },
}

impl View for ErDiagramError {
    type V = DiagramErrorView;

    open spec fn view(&self) -> DiagramErrorView {
        match self {
            ErDiagramError::EmptyEntityId => DiagramErrorView::EmptyEntityId,
            ErDiagramError::DuplicateEntityId { entity } => DiagramErrorView::DuplicateEntityId {
                entity: entity@,
            },
            ErDiagramError::EmptyFieldName { entity } => DiagramErrorView::EmptyFieldName {
                entity: entity@,
            },
            ErDiagramError::DuplicateField { entity, field } => DiagramErrorView::DuplicateField {
                entity: entity@,
                field: field@,
            },
            ErDiagramError::EmptyRelationshipId => DiagramErrorView::EmptyRelationshipId,
            ErDiagramError::DuplicateRelationshipId {
                relationship,
            } => DiagramErrorView::DuplicateRelationshipId { relationship: relationship@ },
            ErDiagramError::UnknownEntity {
                relationship,
                endpoint,
                entity,
            } => DiagramErrorView::UnknownEntity {
                relationship: relationship@,
                endpoint: *endpoint,
                entity: entity@,
            },
            ErDiagramError::UnknownField {
                relationship,
                endpoint,
                entity,
                field,
            } => DiagramErrorView::UnknownField {
                relationship: relationship@,
                endpoint: *endpoint,
                entity: entity@,
                field: field@,
            },
        }
    }
}

/// The message that describes an error.
pub open spec fn error_message(e: DiagramErrorView) -> Seq<char> {
    match e {
        DiagramErrorView::EmptyEntityId => "ER entity id cannot be empty"@,
        DiagramErrorView::DuplicateEntityId { entity } => "duplicate ER entity id `"@ + entity + "`"@,
        DiagramErrorView::EmptyFieldName { entity } => "ER field name cannot be empty in entity `"@
            + entity + "`"@,
        DiagramErrorView::DuplicateField { entity, field } => "duplicate ER field `"@ + field
            + "` in entity `"@ + entity + "`"@,
        DiagramErrorView::EmptyRelationshipId => "ER relationship id cannot be empty"@,
        DiagramErrorView::DuplicateRelationshipId { relationship } =>
            "duplicate ER relationship id `"@ + relationship + "`"@,
        DiagramErrorView::UnknownEntity { relationship, endpoint, entity } => "ER relationship `"@
            + relationship + "` references unknown "@ + endpoint_word(endpoint) + " entity `"@
            + entity + "`"@,
        DiagramErrorView::UnknownField { relationship, endpoint, entity, field } =>
            "ER relationship `"@ + relationship + "` references unknown "@ + endpoint_word(endpoint)
            + " field `"@ + entity + "."@ + field + "`"@,
    }
}

impl ErDiagramError {
    /// The message that describes this error.
    pub fn message(&self) -> (r: String)
        ensures
            r@ == error_message(self@),
    {
        match self {
            ErDiagramError::EmptyEntityId => copy_str("ER entity id cannot be empty"),
            ErDiagramError::DuplicateEntityId { entity } => {
                let mut m = concat_str("duplicate ER entity id `", entity.as_str());
                string_push_str(&mut m, "`");
                m
            },
            ErDiagramError::EmptyFieldName { entity } => {
                let mut m = concat_str("ER field name cannot be empty in entity `", entity.as_str());
                string_push_str(&mut m, "`");
                m
            },
            ErDiagramError::DuplicateField { entity, field } => {
                let mut m = concat_str("duplicate ER field `", field.as_str());
                string_push_str(&mut m, "` in entity `");
                string_push_str(&mut m, entity.as_str());
                string_push_str(&mut m, "`");
                m
            },
            ErDiagramError::EmptyRelationshipId => copy_str("ER relationship id cannot be empty"),
            ErDiagramError::DuplicateRelationshipId { relationship } => {
                let mut m = concat_str("duplicate ER relationship id `", relationship.as_str());
                string_push_str(&mut m, "`");
                m
            },
            ErDiagramError::UnknownEntity { relationship, endpoint, entity } => {
                let mut m = concat_str("ER relationship `", relationship.as_str());
                string_push_str(&mut m, "` references unknown ");
                string_push_str(&mut m, endpoint.word());
                string_push_str(&mut m, " entity `");
                string_push_str(&mut m, entity.as_str());
                string_push_str(&mut m, "`");
                m
            },
            ErDiagramError::UnknownField { relationship, endpoint, entity, field } => {
                let mut m = concat_str("ER relationship `", relationship.as_str());
                string_push_str(&mut m, "` references unknown ");
                string_push_str(&mut m, endpoint.word());
                string_push_str(&mut m, " field `");
                string_push_str(&mut m, entity.as_str());
                string_push_str(&mut m, ".");
                string_push_str(&mut m, field.as_str());
                string_push_str(&mut m, "`");
                m
            },
        }
    }
}

/// What is wrong with field `k` of `e`, given the fields before it: a blank name, or
/// the name of an earlier field.
pub open spec fn field_error(e: ErEntity, k: int) -> Option<DiagramErrorView> {
    let name = e.fields@[k].name@;
    if is_blank(name) {
        Some(DiagramErrorView::EmptyFieldName { entity: e.id@ })
    } else if exists|l: int| 0 <= l < k && (#[trigger] e.fields@[l]).name@ == name {
        Some(DiagramErrorView::DuplicateField { entity: e.id@, field: name })
    } else {
        None
    }
}

/// The first error among the first `n` fields of `e`.
pub open spec fn first_field_error(e: ErEntity, n: int) -> Option<DiagramErrorView>
    decreases n,
{
    if n <= 0 {
        None
    } else {
        match first_field_error(e, n - 1) {
            Some(x) => Some(x),
            None => field_error(e, n - 1),
        }
    }
}

/// What is wrong with entity `i` of `es`, given the entities before it: a blank id, the
/// id of an earlier entity, or an error in its fields.
pub open spec fn entity_error(es: Seq<ErEntity>, i: int) -> Option<DiagramErrorView> {
    let id = es[i].id@;
    if is_blank(id) {
        Some(DiagramErrorView::EmptyEntityId)
    } else if exists|j: int| 0 <= j < i && (#[trigger] es[j]).id@ == id {
        Some(DiagramErrorView::DuplicateEntityId { entity: id })
    } else {
        first_field_error(es[i], es[i].fields@.len() as int)
    }
}

/// The first error among the first `n` entities of `es`.
pub open spec fn first_entity_error(es: Seq<ErEntity>, n: int) -> Option<DiagramErrorView>
    decreases n,
{
    if n <= 0 {
        None
    } else {
        match first_entity_error(es, n - 1) {
            Some(x) => Some(x),
            None => entity_error(es, n - 1),
        }
    }
}

/// Some entity of `es` has the id `id`.
pub open spec fn has_entity(es: Seq<ErEntity>, id: Seq<char>) -> bool {
    exists|i: int| 0 <= i < es.len() && (#[trigger] es[i]).id@ == id
}

/// Some entity of `es` with the id `id` has a field named `field`.
pub open spec fn has_entity_field(es: Seq<ErEntity>, id: Seq<char>, field: Seq<char>) -> bool {
    exists|i: int, k: int|
        0 <= i < es.len() && 0 <= k < es[i].fields@.len() && (#[trigger] es[i]).id@ == id
            && (#[trigger] es[i].fields@[k]).name@ == field
}

/// What is wrong with one end of the relationship `rel`: an unknown entity, or an
/// unknown field of that entity.
pub open spec fn endpoint_error(
    es: Seq<ErEntity>,
    rel: Seq<char>,
    endpoint: Endpoint,
    entity: Seq<char>,
    field: Seq<char>,
) -> Option<DiagramErrorView> {
    if !has_entity(es, entity) {
        Some(DiagramErrorView::UnknownEntity { relationship: rel, endpoint, entity })
    } else if !has_entity_field(es, entity, field) {
        Some(DiagramErrorView::UnknownField { relationship: rel, endpoint, entity, field })
    } else {
        None
    }
}

/// What is wrong with relationship `i` of `rs`, given the relationships before it: a
/// blank id, the id of an earlier relationship, or an unknown source or target.
pub open spec fn relationship_error(es: Seq<ErEntity>, rs: Seq<ErRelationship>, i: int) -> Option<DiagramErrorView> {
    let r = rs[i];
    if is_blank(r.id@) {
        Some(DiagramErrorView::EmptyRelationshipId)
    } else if exists|j: int| 0 <= j < i && (#[trigger] rs[j]).id@ == r.id@ {
        Some(DiagramErrorView::DuplicateRelationshipId { relationship: r.id@ })
    } else {
        match endpoint_error(es, r.id@, Endpoint::Source, r.from_entity@, r.from_field@) {
            Some(x) => Some(x),
            None => endpoint_error(es, r.id@, Endpoint::Target, r.to_entity@, r.to_field@),
        }
    }
}

/// The first error among the first `n` relationships of `rs`.
pub open spec fn first_relationship_error(es: Seq<ErEntity>, rs: Seq<ErRelationship>, n: int) -> Option<DiagramErrorView>
    decreases n,
{
    if n <= 0 {
        None
    } else {
        match first_relationship_error(es, rs, n - 1) {
            Some(x) => Some(x),
            None => relationship_error(es, rs, n - 1),
        }
    }
}

/// The first error of the diagram: entities first, in order, then relationships.
pub open spec fn diagram_error(d: ErDiagram) -> Option<DiagramErrorView> {
    match first_entity_error(d.entities@, d.entities@.len() as int) {
        Some(x) => Some(x),
        None => first_relationship_error(d.entities@, d.relationships@, d.relationships@.len() as int),
    }
}

proof fn lemma_field_error_stays(e: ErEntity, n: int, m: int)
    requires
        0 <= n <= m,
        first_field_error(e, n) is Some,
    ensures
        first_field_error(e, m) == first_field_error(e, n),
    decreases m - n,
{
    if n < m {
        lemma_field_error_stays(e, n, m - 1);
    }
}

proof fn lemma_entity_error_stays(es: Seq<ErEntity>, n: int, m: int)
    requires
        0 <= n <= m,
        first_entity_error(es, n) is Some,
    ensures
        first_entity_error(es, m) == first_entity_error(es, n),
    decreases m - n,
{
    if n < m {
        lemma_entity_error_stays(es, n, m - 1);
    }
}

proof fn lemma_relationship_error_stays(es: Seq<ErEntity>, rs: Seq<ErRelationship>, n: int, m: int)
    requires
        0 <= n <= m,
        first_relationship_error(es, rs, n) is Some,
    ensures
        first_relationship_error(es, rs, m) == first_relationship_error(es, rs, n),
    decreases m - n,
{
    if n < m {
        lemma_relationship_error_stays(es, rs, n, m - 1);
    }
}

/// The first error among the fields of `entity`.
fn validate_fields(entity: &ErEntity) -> (r: Result<(), ErDiagramError>)
    ensures
        match r {
            Ok(()) => first_field_error(*entity, entity.fields@.len() as int) is None,
            Err(e) => first_field_error(*entity, entity.fields@.len() as int) == Some(e@),
        },
{
    let mut k: usize = 0;
    while k < entity.fields.len()
        invariant
            k <= entity.fields@.len(),
            first_field_error(*entity, k as int) is None,
        decreases entity.fields@.len() - k,
    {
        let name = entity.fields[k].name.as_str();
        if str_is_blank(name) {
            let err = ErDiagramError::EmptyFieldName { entity: copy_str(entity.id.as_str()) };
            proof {
                assert(first_field_error(*entity, k + 1) == Some(err@));
                lemma_field_error_stays(*entity, k + 1, entity.fields@.len() as int);
            }
            return Err(err);
        }
        let mut l: usize = 0;
        while l < k
            invariant
                l <= k < entity.fields@.len(),
                name@ == entity.fields@[k as int].name@,
                !is_blank(name@),
                first_field_error(*entity, k as int) is None,
                forall|m: int| 0 <= m < l ==> (#[trigger] entity.fields@[m]).name@ != name@,
            decreases k - l,
        {
            if str_equal(entity.fields[l].name.as_str(), name) {
                assert(entity.fields@[l as int].name@ == name@);
                let err = ErDiagramError::DuplicateField {
                    entity: copy_str(entity.id.as_str()),
                    field: copy_str(name),
                };
                proof {
                    assert(first_field_error(*entity, k + 1) == Some(err@));
                    lemma_field_error_stays(*entity, k + 1, entity.fields@.len() as int);
                }
                return Err(err);
            }
            l += 1;
        }
        k += 1;
    }
    Ok(())
}

/// Whether some entity of `entities` has the id `id`.
fn contains_entity(entities: &Vec<ErEntity>, id: &str) -> (b: bool)
    ensures
        b == has_entity(entities@, id@),
{
    let mut i: usize = 0;
    while i < entities.len()
        invariant
            i <= entities@.len(),
            forall|j: int| 0 <= j < i ==> (#[trigger] entities@[j]).id@ != id@,
        decreases entities@.len() - i,
    {
        if str_equal(entities[i].id.as_str(), id) {
            assert(entities@[i as int].id@ == id@);
            return true;
        }
        i += 1;
    }
    false
}

/// Whether some entity of `entities` with the id `id` has a field named `field`.
fn contains_entity_field(entities: &Vec<ErEntity>, id: &str, field: &str) -> (b: bool)
    ensures
        b == has_entity_field(entities@, id@, field@),
{
    let mut i: usize = 0;
    while i < entities.len()
        invariant
            i <= entities@.len(),
            forall|j: int, k: int|
                0 <= j < i && 0 <= k < entities@[j].fields@.len() ==> !((#[trigger] entities@[j]).id@
                    == id@ && (#[trigger] entities@[j].fields@[k]).name@ == field@),
        decreases entities@.len() - i,
    {
        let entity = &entities[i];
        if str_equal(entity.id.as_str(), id) {
            let mut k: usize = 0;
            while k < entity.fields.len()
                invariant
                    i < entities@.len(),
                    *entity == entities@[i as int],
                    entity.id@ == id@,
                    k <= entity.fields@.len(),
                    forall|m: int| 0 <= m < k ==> (#[trigger] entity.fields@[m]).name@ != field@,
                decreases entity.fields@.len() - k,
            {
                if str_equal(entity.fields[k].name.as_str(), field) {
                    assert(entities@[i as int].fields@[k as int].name@ == field@);
                    return true;
                }
                k += 1;
            }
        }
        i += 1;
    }
    false
}

/// Checks one end of `relationship`: the entity `entity_id` must exist and have a field
/// named `field_name`.
pub fn validate_relationship_endpoint(
    entities: &Vec<ErEntity>,
    entity_id: &str,
    field_name: &str,
    endpoint: Endpoint,
    relationship: &ErRelationship,
) -> (r: Result<(), ErDiagramError>)
    ensures
        match r {
            Ok(()) => endpoint_error(entities@, relationship.id@, endpoint, entity_id@, field_name@) is None,
            Err(e) => endpoint_error(entities@, relationship.id@, endpoint, entity_id@, field_name@)
                == Some(e@),
        },
{
    if !contains_entity(entities, entity_id) {
        return Err(
            ErDiagramError::UnknownEntity {
                relationship: copy_str(relationship.id.as_str()),
                endpoint,
                entity: copy_str(entity_id),
            },
        );
    }
    if !contains_entity_field(entities, entity_id, field_name) {
        return Err(
            ErDiagramError::UnknownField {
                relationship: copy_str(relationship.id.as_str()),
                endpoint,
                entity: copy_str(entity_id),
                field: copy_str(field_name),
            },
        );
    }
    Ok(())
}

/// Checks a diagram: entity ids are non-blank and unique, field names are non-blank and
/// unique within their entity, relationship ids are non-blank and unique, and both ends
/// of each relationship name an existing entity and one of its fields. The first
/// problem, in that order of checks, is the error.
pub fn validate_diagram(diagram: &ErDiagram) -> (r: Result<(), ErDiagramError>)
    ensures
        match r {
            Ok(()) => diagram_error(*diagram) is None,
            Err(e) => diagram_error(*diagram) == Some(e@),
        },
{
    let entities = &diagram.entities;
    let mut i: usize = 0;
    while i < entities.len()
        invariant
            i <= entities@.len(),
            *entities == diagram.entities,
            first_entity_error(entities@, i as int) is None,
        decreases entities@.len() - i,
    {
        let entity = &entities[i];
        if str_is_blank(entity.id.as_str()) {
            proof {
                assert(first_entity_error(entities@, i + 1) == Some(DiagramErrorView::EmptyEntityId));
                lemma_entity_error_stays(entities@, i + 1, entities@.len() as int);
            }
            return Err(ErDiagramError::EmptyEntityId);
        }
        let mut j: usize = 0;
        while j < i
            invariant
                j <= i < entities@.len(),
                *entity == entities@[i as int],
                *entities == diagram.entities,
                !is_blank(entity.id@),
                first_entity_error(entities@, i as int) is None,
                forall|m: int| 0 <= m < j ==> (#[trigger] entities@[m]).id@ != entity.id@,
            decreases i - j,
        {
            if str_equal(entities[j].id.as_str(), entity.id.as_str()) {
                assert(entities@[j as int].id@ == entities@[i as int].id@);
                let err = ErDiagramError::DuplicateEntityId { entity: copy_str(entity.id.as_str()) };
                proof {
                    assert(first_entity_error(entities@, i + 1) == Some(err@));
                    lemma_entity_error_stays(entities@, i + 1, entities@.len() as int);
                }
                return Err(err);
            }
            j += 1;
        }
        match validate_fields(entity) {
            Ok(()) => {},
            Err(e) => {
                proof {
                    assert(first_entity_error(entities@, i + 1) == Some(e@));
                    lemma_entity_error_stays(entities@, i + 1, entities@.len() as int);
                }
                return Err(e);
            },
        }
        i += 1;
    }
    let relationships = &diagram.relationships;
    let mut i: usize = 0;
    while i < relationships.len()
        invariant
            i <= relationships@.len(),
            *entities == diagram.entities,
            *relationships == diagram.relationships,
            first_entity_error(entities@, entities@.len() as int) is None,
            first_relationship_error(entities@, relationships@, i as int) is None,
        decreases relationships@.len() - i,
    {
        let relationship = &relationships[i];
        if str_is_blank(relationship.id.as_str()) {
            proof {
                assert(first_relationship_error(entities@, relationships@, i + 1) == Some(
                    DiagramErrorView::EmptyRelationshipId,
                ));
                lemma_relationship_error_stays(entities@, relationships@, i + 1, relationships@.len() as int);
            }
            return Err(ErDiagramError::EmptyRelationshipId);
        }
        let mut j: usize = 0;
        while j < i
            invariant
                j <= i < relationships@.len(),
                *relationship == relationships@[i as int],
                *entities == diagram.entities,
                *relationships == diagram.relationships,
                !is_blank(relationship.id@),
                first_entity_error(entities@, entities@.len() as int) is None,
                first_relationship_error(entities@, relationships@, i as int) is None,
                forall|m: int| 0 <= m < j ==> (#[trigger] relationships@[m]).id@ != relationship.id@,
            decreases i - j,
        {
            if str_equal(relationships[j].id.as_str(), relationship.id.as_str()) {
                assert(relationships@[j as int].id@ == relationships@[i as int].id@);
                let err = ErDiagramError::DuplicateRelationshipId {
                    relationship: copy_str(relationship.id.as_str()),
                };
                proof {
                    assert(first_relationship_error(entities@, relationships@, i + 1) == Some(err@));
                    lemma_relationship_error_stays(entities@, relationships@, i + 1, relationships@.len() as int);
                }
                return Err(err);
            }
            j += 1;
        }
        match validate_relationship_endpoint(
            entities,
            relationship.from_entity.as_str(),
            relationship.from_field.as_str(),
            Endpoint::Source,
            relationship,
        ) {
            Ok(()) => {},
            Err(e) => {
                proof {
                    assert(first_relationship_error(entities@, relationships@, i + 1) == Some(e@));
                    lemma_relationship_error_stays(entities@, relationships@, i + 1, relationships@.len() as int);
                }
                return Err(e);
            },
        }
        match validate_relationship_endpoint(
            entities,
            relationship.to_entity.as_str(),
            relationship.to_field.as_str(),
            Endpoint::Target,
            relationship,
        ) {
            Ok(()) => {},
            Err(e) => {
                proof {
                    assert(first_relationship_error(entities@, relationships@, i + 1) == Some(e@));
                    lemma_relationship_error_stays(entities@, relationships@, i + 1, relationships@.len() as int);
                }
                return Err(e);
            },
        }
        i += 1;
    }
    Ok(())
}

/// The fields that relationships start from: `(from_entity, from_field)` of each, in
/// order.
pub open spec fn foreign_key_pairs(rs: Seq<ErRelationship>) -> Seq<(Seq<char>, Seq<char>)> {
    rs.map_values(|r: ErRelationship| (r.from_entity@, r.from_field@))
}

/// The `(entity, field)` pairs that relationships start from.
pub fn foreign_key_fields(relationships: &Vec<ErRelationship>) -> (r: Vec<(String, String)>)
    ensures
        pair_views(r@) == foreign_key_pairs(relationships@),
{
    let mut pairs: Vec<(String, String)> = Vec::new();
    let mut i: usize = 0;
    while i < relationships.len()
        invariant
            i <= relationships@.len(),
            pair_views(pairs@) == foreign_key_pairs(relationships@.subrange(0, i as int)),
        decreases relationships@.len() - i,
    {
        let r = &relationships[i];
        let pair = (copy_str(r.from_entity.as_str()), copy_str(r.from_field.as_str()));
        let ghost before = pairs@;
        pairs.push(pair);
        assert(pair_views(pairs@) =~= pair_views(before).push((pair.0@, pair.1@)));
        assert(foreign_key_pairs(relationships@.subrange(0, i + 1)) =~= foreign_key_pairs(
            relationships@.subrange(0, i as int),
        ).push((r.from_entity@, r.from_field@)));
        i += 1;
    }
    assert(relationships@.subrange(0, i as int) =~= relationships@);
    pairs
}

/// Whether the field `field_name` of the entity `entity_id` starts a relationship.
pub fn is_foreign_key(foreign_key_fields: &Vec<(String, String)>, entity_id: &str, field_name: &str) -> (r: bool)
    ensures
        r == pair_views(foreign_key_fields@).contains((entity_id@, field_name@)),
{
    let mut i: usize = 0;
    while i < foreign_key_fields.len()
        invariant
            i <= foreign_key_fields@.len(),
            forall|j: int| 0 <= j < i ==> (#[trigger] pair_views(foreign_key_fields@)[j]) != (entity_id@, field_name@),
        decreases foreign_key_fields@.len() - i,
    {
        if str_equal(foreign_key_fields[i].0.as_str(), entity_id) && str_equal(
            foreign_key_fields[i].1.as_str(),
            field_name,
        ) {
            assert(pair_views(foreign_key_fields@)[i as int] == (entity_id@, field_name@));
            return true;
        }
        i += 1;
    }
    false
}

/// The dependencies of the relationships: each lifts its `from` entity above its `to`
/// entity.
pub open spec fn relationship_deps(rs: Seq<ErRelationship>) -> Seq<(Seq<char>, Seq<char>)> {
    rs.map_values(|r: ErRelationship| (r.from_entity@, r.to_entity@))
}

/// The layout level of each entity id of `diagram`: one pass over the relationships
/// per entity, each lifting its `from` entity past its `to` entity.
pub fn entity_levels(diagram: &ErDiagram) -> (levels: Vec<(String, u64)>)
    ensures
        distinct_keys(levels@),
        assoc_map(levels@) == level_rounds(
            relationship_deps(diagram.relationships@),
            diagram.entities@.len() as nat,
        ),
{
    let relationships = &diagram.relationships;
    let mut deps: Vec<(String, String)> = Vec::new();
    let mut i: usize = 0;
    while i < relationships.len()
        invariant
            i <= relationships@.len(),
            *relationships == diagram.relationships,
            pair_views(deps@) == relationship_deps(relationships@.subrange(0, i as int)),
        decreases relationships@.len() - i,
    {
        let r = &relationships[i];
        let dep = (copy_str(r.from_entity.as_str()), copy_str(r.to_entity.as_str()));
        let ghost before = deps@;
        deps.push(dep);
        assert(pair_views(deps@) =~= pair_views(before).push((dep.0@, dep.1@)));
        assert(relationship_deps(relationships@.subrange(0, i + 1)) =~= relationship_deps(
            relationships@.subrange(0, i as int),
        ).push((r.from_entity@, r.to_entity@)));
        i += 1;
    }
    assert(relationships@.subrange(0, i as int) =~= relationships@);
    dependency_levels(diagram.entities.len(), &deps)
}

proof fn lemma_no_entity_error(es: Seq<ErEntity>, n: int, i: int)
    requires
        0 <= i < n,
        first_entity_error(es, n) is None,
    ensures
        entity_error(es, i) is None,
    decreases n,
{
    if i < n - 1 {
        lemma_no_entity_error(es, n - 1, i);
    }
}

proof fn lemma_no_relationship_error(es: Seq<ErEntity>, rs: Seq<ErRelationship>, n: int, i: int)
    requires
        0 <= i < n,
        first_relationship_error(es, rs, n) is None,
    ensures
        relationship_error(es, rs, i) is None,
    decreases n,
{
    if i < n - 1 {
        lemma_no_relationship_error(es, rs, n - 1, i);
    }
}

/// A diagram that validation accepts has non-blank, pairwise distinct entity ids and
/// relationship ids, and both ends of every relationship name a field of an entity.
pub proof fn lemma_accepted_diagram_is_consistent(d: ErDiagram)
    requires
        diagram_error(d) is None,
    ensures
        forall|i: int| 0 <= i < d.entities@.len() ==> !is_blank((#[trigger] d.entities@[i]).id@),
        forall|i: int, j: int|
            0 <= i < j < d.entities@.len() ==> (#[trigger] d.entities@[i]).id@ != (
            #[trigger] d.entities@[j]).id@,
        forall|i: int| 0 <= i < d.relationships@.len() ==> !is_blank((#[trigger] d.relationships@[i]).id@),
        forall|i: int, j: int|
            0 <= i < j < d.relationships@.len() ==> (#[trigger] d.relationships@[i]).id@ != (
            #[trigger] d.relationships@[j]).id@,
        forall|i: int|
            0 <= i < d.relationships@.len() ==> has_entity_field(
                d.entities@,
                (#[trigger] d.relationships@[i]).from_entity@,
                d.relationships@[i].from_field@,
            ) && has_entity_field(d.entities@, d.relationships@[i].to_entity@, d.relationships@[i].to_field@),
{
    let es = d.entities@;
    let rs = d.relationships@;
    assert forall|i: int| 0 <= i < es.len() implies !is_blank((#[trigger] es[i]).id@) by {
        lemma_no_entity_error(es, es.len() as int, i);
    }
    assert forall|i: int, j: int| 0 <= i < j < es.len() implies (#[trigger] es[i]).id@ != (
    #[trigger] es[j]).id@ by {
        lemma_no_entity_error(es, es.len() as int, j);
    }
    assert forall|i: int| 0 <= i < rs.len() implies !is_blank((#[trigger] rs[i]).id@) by {
        lemma_no_relationship_error(es, rs, rs.len() as int, i);
    }
    assert forall|i: int, j: int| 0 <= i < j < rs.len() implies (#[trigger] rs[i]).id@ != (
    #[trigger] rs[j]).id@ by {
        lemma_no_relationship_error(es, rs, rs.len() as int, j);
    }
    assert forall|i: int| 0 <= i < rs.len() implies has_entity_field(
        es,
        (#[trigger] rs[i]).from_entity@,
        rs[i].from_field@,
    ) && has_entity_field(es, rs[i].to_entity@, rs[i].to_field@) by {
        lemma_no_relationship_error(es, rs, rs.len() as int, i);
    }
}

} // verus!

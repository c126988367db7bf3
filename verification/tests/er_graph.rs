use onetcli::er_graph::{
    entity_levels, foreign_key_fields, is_foreign_key, validate_diagram,
    validate_relationship_endpoint, Endpoint, ErDiagram, ErDiagramError, ErEntity, ErField,
    ErRelationship, ErRelationshipKind,
};
use onetcli::levels::level_of;

fn field(name: &str, primary_key: bool) -> ErField {
    ErField {
        name: name.to_string(),
        data_type: "uuid".to_string(),
        nullable: false,
        primary_key,
        unique: primary_key,
        comment: None,
    }
}

fn users_orgs_diagram() -> ErDiagram {
    ErDiagram {
        entities: vec![
            ErEntity {
                id: "users".to_string(),
                name: "users".to_string(),
                comment: None,
                fields: vec![field("id", true), field("org_id", false)],
            },
            ErEntity {
                id: "orgs".to_string(),
                name: "organizations".to_string(),
                comment: Some("customer organizations".to_string()),
                fields: vec![field("id", true)],
            },
        ],
        relationships: vec![ErRelationship {
            id: "users_orgs".to_string(),
            from_entity: "users".to_string(),
            from_field: "org_id".to_string(),
            to_entity: "orgs".to_string(),
            to_field: "id".to_string(),
            kind: ErRelationshipKind::ManyToOne,
        }],
    }
}

fn error_message(diagram: &ErDiagram) -> String {
    validate_diagram(diagram).unwrap_err().message()
}

#[test]
fn rejects_relationship_with_unknown_entity() {
    let mut diagram = users_orgs_diagram();
    diagram.relationships[0].to_entity = "missing".to_string();

    let error = error_message(&diagram);

    assert!(error.contains("unknown target entity"));
}

#[test]
fn rejects_relationship_with_unknown_field() {
    let mut diagram = users_orgs_diagram();
    diagram.relationships[0].from_field = "missing".to_string();

    let error = error_message(&diagram);

    assert!(error.contains("unknown source field"));
}

#[test]
fn rejects_duplicate_entity_ids() {
    let mut diagram = users_orgs_diagram();
    diagram.entities[1].id = "users".to_string();

    let error = error_message(&diagram);

    assert!(error.contains("duplicate ER entity id"));
}

#[test]
fn accepts_consistent_and_empty_diagrams() {
    assert_eq!(Ok(()), validate_diagram(&users_orgs_diagram()));
    assert_eq!(Ok(()), validate_diagram(&ErDiagram::default()));
}

#[test]
fn validation_errors_carry_exact_messages() {
    let mut diagram = users_orgs_diagram();
    diagram.entities[0].id = "  ".to_string();
    assert_eq!(Err(ErDiagramError::EmptyEntityId), validate_diagram(&diagram));
    assert_eq!("ER entity id cannot be empty", error_message(&diagram));

    let mut diagram = users_orgs_diagram();
    diagram.entities[0].fields[1].name = "\t".to_string();
    assert_eq!(
        "ER field name cannot be empty in entity `users`",
        error_message(&diagram)
    );

    let mut diagram = users_orgs_diagram();
    diagram.entities[0].fields[1].name = "id".to_string();
    assert_eq!(
        Err(ErDiagramError::DuplicateField {
            entity: "users".to_string(),
            field: "id".to_string()
        }),
        validate_diagram(&diagram)
    );
    assert_eq!(
        "duplicate ER field `id` in entity `users`",
        error_message(&diagram)
    );

    let mut diagram = users_orgs_diagram();
    diagram.relationships[0].id = String::new();
    assert_eq!("ER relationship id cannot be empty", error_message(&diagram));

    let mut diagram = users_orgs_diagram();
    let copy = diagram.relationships[0].clone();
    diagram.relationships.push(copy);
    assert_eq!(
        "duplicate ER relationship id `users_orgs`",
        error_message(&diagram)
    );

    let mut diagram = users_orgs_diagram();
    diagram.relationships[0].to_field = "name".to_string();
    assert_eq!(
        "ER relationship `users_orgs` references unknown target field `orgs.name`",
        error_message(&diagram)
    );

    let mut diagram = users_orgs_diagram();
    diagram.relationships[0].from_entity = "nobody".to_string();
    assert_eq!(
        "ER relationship `users_orgs` references unknown source entity `nobody`",
        error_message(&diagram)
    );
}

#[test]
fn entity_errors_come_before_relationship_errors() {
    let mut diagram = users_orgs_diagram();
    diagram.relationships[0].to_entity = "missing".to_string();
    diagram.entities[1].fields.push(field("id", false));
    assert_eq!(
        Err(ErDiagramError::DuplicateField {
            entity: "orgs".to_string(),
            field: "id".to_string()
        }),
        validate_diagram(&diagram)
    );
}

#[test]
fn endpoint_validation_checks_entity_then_field() {
    let diagram = users_orgs_diagram();
    let relationship = &diagram.relationships[0];
    assert_eq!(
        Ok(()),
        validate_relationship_endpoint(&diagram.entities, "users", "org_id", Endpoint::Source, relationship)
    );
    assert_eq!(
        Err(ErDiagramError::UnknownField {
            relationship: "users_orgs".to_string(),
            endpoint: Endpoint::Target,
            entity: "orgs".to_string(),
            field: "org_id".to_string(),
        }),
        validate_relationship_endpoint(&diagram.entities, "orgs", "org_id", Endpoint::Target, relationship)
    );
}

#[test]
fn foreign_key_fields_mark_relationship_sources() {
    let diagram = users_orgs_diagram();
    let fields = foreign_key_fields(&diagram.relationships);

    assert!(!is_foreign_key(&fields, "users", "id"));
    assert!(is_foreign_key(&fields, "users", "org_id"));
    assert!(!is_foreign_key(&fields, "orgs", "org_id"));
}

#[test]
fn entity_levels_place_dependents_after_targets() {
    let levels = entity_levels(&users_orgs_diagram());

    assert_eq!(1, level_of(&levels, "users"));
    assert_eq!(0, level_of(&levels, "orgs"));
}

#[test]
fn entity_levels_follow_chains() {
    let mut diagram = users_orgs_diagram();
    diagram.entities.push(ErEntity {
        id: "orders".to_string(),
        name: "orders".to_string(),
        comment: None,
        fields: vec![field("user_id", false)],
    });
    diagram.relationships.push(ErRelationship {
        id: "orders_users".to_string(),
        from_entity: "orders".to_string(),
        from_field: "user_id".to_string(),
        to_entity: "users".to_string(),
        to_field: "id".to_string(),
        kind: ErRelationshipKind::ManyToOne,
    });
    let levels = entity_levels(&diagram);
    assert_eq!(2, level_of(&levels, "orders"));
    assert_eq!(1, level_of(&levels, "users"));
    assert_eq!(0, level_of(&levels, "orgs"));
}

use onetcli::er_tab::{tab_title, ErDiagramConfig, ErDiagramTabState, TabContentView};
use onetcli::er_model::{
    build_er_graph, candidate_names, collect_relationships, contains_pair, explicit_relationships,
    id_column_prefix,
    infer_reference_prefix, infer_relationships, relationship_column_lookup, table_height,
    table_key, table_model, text_value, ColumnInfo, ErColumnModel, ErForeignKeyModel, ErGraph,
    ErNode, ErTableModel, ForeignKeyDefinition, PortId, PortSide,
};

#[test]
fn build_er_graph_maps_tables_columns_and_foreign_keys() {
    let graph = build_er_graph(vec![users_table_with_fk(), organizations_table()]);

    assert_eq!(2, graph.nodes().len());
    assert_eq!(1, graph.edges.len());

    let users = find_node(&graph, "users");
    assert_eq!("er.table", users.node_type);
    assert_eq!(Some("public".to_string()), users.data.schema);
    assert_eq!("id", users.data.columns[0].name);
    assert_eq!(true, users.data.columns[0].pk);
    assert_eq!(true, users.data.columns[1].fk);
    assert_eq!(false, users.data.columns[1].nullable);
    assert_eq!(126, users.height);
}

#[test]
fn infer_relationships_links_user_id_to_users_id() {
    let relationships = infer_relationships(&[users_table(), orders_table()]);

    assert_eq!(1, relationships.len());
    assert_eq!("public.orders", relationships[0].source_table);
    assert_eq!(vec!["user_id"], relationships[0].source_columns);
    assert_eq!("public.users", relationships[0].target_table);
    assert!(relationships[0].inferred);
}

#[test]
fn build_er_graph_places_dependents_to_the_right_of_targets() {
    let graph = build_er_graph(vec![users_table(), orders_table()]);

    let users = find_node(&graph, "users");
    let orders = find_node(&graph, "orders");

    assert!(orders.x > users.x);
    assert_eq!(users.y, orders.y);
}

#[test]
fn build_er_graph_connects_target_right_side_to_source_left_side() {
    let graph = build_er_graph(vec![users_table(), orders_table()]);
    let users = find_node(&graph, "users");
    let orders = find_node(&graph, "orders");
    let edge = graph.edges.first().expect("edge should exist");

    assert_eq!(Some(&edge.source_port), users.outputs.first());
    assert_eq!(Some(&edge.target_port), orders.inputs.first());
}

#[test]
fn build_er_graph_stacks_unrelated_tables_without_overlap() {
    let graph = build_er_graph(vec![users_table(), organizations_table()]);
    let mut nodes: Vec<&ErNode> = graph.nodes().iter().collect();
    nodes.sort_by_key(|node| node.y);

    let first_bottom = nodes[0].y + nodes[0].height;
    let second_top = nodes[1].y;
    assert!(second_top > first_bottom);
}

#[test]
fn build_er_graph_lays_out_exact_coordinates() {
    let graph = build_er_graph(vec![users_table(), orders_table(), organizations_table()]);
    let users = find_node(&graph, "users");
    let orders = find_node(&graph, "orders");
    let organizations = find_node(&graph, "organizations");

    assert_eq!((40, 40), (users.x, users.y));
    assert_eq!((440, 40), (orders.x, orders.y));
    // users is 96 high (one column), plus the 56 pixel gap.
    assert_eq!((40, 192), (organizations.x, organizations.y));
    assert_eq!(280, users.width);
    assert_eq!(126, orders.height);
}

#[test]
fn build_er_graph_node_ports_follow_table_order() {
    let graph = build_er_graph(vec![users_table(), orders_table()]);
    assert_eq!(0, graph.nodes()[0].id);
    assert_eq!(1, graph.nodes()[1].id);
    assert_eq!(
        vec![PortId { node: 1, side: PortSide::Input }],
        graph.nodes()[1].inputs
    );
    assert_eq!(
        PortId { node: 0, side: PortSide::Output },
        graph.edges[0].source_port
    );
    assert_eq!("public.orders", graph.nodes()[1].data.label);
}

#[test]
fn table_height_has_a_minimum_and_grows_per_column() {
    assert_eq!(96, table_height(0));
    assert_eq!(96, table_height(1));
    assert_eq!(126, table_height(2));
    assert_eq!(160, table_height(3));
    assert_eq!(u64::MAX, table_height(usize::MAX));
}

#[test]
fn table_key_uses_a_non_empty_schema() {
    assert_eq!("public.users", table_key(&users_table()));
    let mut table = users_table();
    table.schema = Some(String::new());
    assert_eq!("users", table_key(&table));
    table.schema = None;
    assert_eq!("users", table_key(&table));
}

#[test]
fn reference_prefix_needs_a_non_empty_name_before_id() {
    assert_eq!(Some("user".to_string()), infer_reference_prefix("User_ID"));
    assert_eq!(None, infer_reference_prefix("_id"));
    assert_eq!(None, infer_reference_prefix("userid"));
    assert_eq!(None, infer_reference_prefix("id"));
}

#[test]
fn id_prefix_is_taken_from_lowercased_names() {
    assert_eq!(Some("org".to_string()), id_column_prefix("org_id"));
    assert_eq!(None, id_column_prefix("org_ID"));
    let pairs = vec![("public.users".to_string(), "org_id".to_string())];
    assert!(contains_pair(&pairs, "public.users", "org_id"));
    assert!(!contains_pair(&pairs, "public.users", "id"));
}

#[test]
fn candidate_names_add_plurals() {
    assert_eq!(vec!["user", "users"], candidate_names("user"));
    assert_eq!(vec!["category", "categorys", "categories"], candidate_names("category"));
}

#[test]
fn infer_relationships_finds_ies_plural_and_skips_self_references() {
    let categories = ErTableModel {
        name: "categories".to_string(),
        schema: None,
        columns: vec![id_column()],
        foreign_keys: vec![],
    };
    let products = ErTableModel {
        name: "products".to_string(),
        schema: None,
        columns: vec![
            id_column(),
            column("category_id"),
            column("product_id"),
            column("missing_id"),
        ],
        foreign_keys: vec![],
    };
    let relationships = infer_relationships(&[categories, products]);
    assert_eq!(1, relationships.len());
    assert_eq!("products", relationships[0].source_table);
    assert_eq!("categories", relationships[0].target_table);
    assert_eq!(vec!["id"], relationships[0].target_columns);
}

#[test]
fn infer_relationships_needs_an_id_column_on_the_target() {
    let users = ErTableModel {
        name: "users".to_string(),
        schema: None,
        columns: vec![column("name")],
        foreign_keys: vec![],
    };
    let orders = ErTableModel {
        name: "orders".to_string(),
        schema: None,
        columns: vec![column("user_id")],
        foreign_keys: vec![],
    };
    assert!(infer_relationships(&[users, orders]).is_empty());
}

#[test]
fn explicit_relationships_resolve_within_the_source_schema() {
    let mut table = users_table_with_fk();
    table.foreign_keys[0].ref_table = "ORGANIZATIONS".to_string();
    let mut dangling = organizations_table();
    dangling.foreign_keys.push(ErForeignKeyModel {
        name: "fk_missing".to_string(),
        columns: vec!["x".to_string()],
        ref_table: "missing".to_string(),
        ref_columns: vec!["id".to_string()],
    });
    let relationships = explicit_relationships(&[table, dangling]);
    assert_eq!(1, relationships.len());
    assert_eq!("public.users", relationships[0].source_table);
    assert_eq!("public.organizations", relationships[0].target_table);
    assert!(!relationships[0].inferred);
}

#[test]
fn collect_relationships_drops_inferred_ones_already_declared() {
    let mut orders = orders_table();
    orders.foreign_keys.push(ErForeignKeyModel {
        name: "fk_orders_user".to_string(),
        columns: vec!["user_id".to_string()],
        ref_table: "users".to_string(),
        ref_columns: vec!["id".to_string()],
    });
    let relationships = collect_relationships(&[users_table(), orders]);
    assert_eq!(1, relationships.len());
    assert!(!relationships[0].inferred);

    let lookup = relationship_column_lookup(&relationships);
    assert_eq!(
        vec![("public.orders".to_string(), "user_id".to_string())],
        lookup
    );
}

#[test]
fn table_model_prefers_the_table_schema_and_keeps_driver_order() {
    let columns = vec![
        ColumnInfo {
            name: "id".to_string(),
            data_type: "bigint".to_string(),
            is_primary_key: true,
            is_nullable: false,
        },
        ColumnInfo {
            name: "note".to_string(),
            data_type: "text".to_string(),
            is_primary_key: false,
            is_nullable: true,
        },
    ];
    let fks = vec![ForeignKeyDefinition {
        name: "fk".to_string(),
        columns: vec!["org_id".to_string()],
        ref_table: "orgs".to_string(),
        ref_columns: vec!["id".to_string()],
    }];
    let table = table_model(
        "t".to_string(),
        None,
        Some("public".to_string()),
        columns.clone(),
        fks.clone(),
    );
    assert_eq!(Some("public".to_string()), table.schema);
    assert_eq!(vec!["id", "note"], table.columns.iter().map(|c| c.name.as_str()).collect::<Vec<_>>());
    assert!(table.columns[1].is_nullable);
    assert_eq!("orgs", table.foreign_keys[0].ref_table);

    let table = table_model(
        "t".to_string(),
        Some("sales".to_string()),
        Some("public".to_string()),
        columns,
        fks,
    );
    assert_eq!(Some("sales".to_string()), table.schema);
}

#[test]
fn node_text_values_are_read_by_key() {
    let graph = build_er_graph(vec![users_table()]);
    let data = &graph.nodes()[0].data;
    assert_eq!(Some("public".to_string()), text_value(data, "schema"));
    assert_eq!(Some("users".to_string()), text_value(data, "table"));
    assert_eq!(Some("public.users".to_string()), text_value(data, "label"));
    assert_eq!(None, text_value(data, "columns"));
}

fn find_node<'a>(graph: &'a ErGraph, table: &str) -> &'a ErNode {
    graph
        .nodes()
        .iter()
        .find(|node| node.data.table == table)
        .expect("node should exist")
}

fn users_table_with_fk() -> ErTableModel {
    let mut table = users_table();
    table.columns.push(ErColumnModel {
        name: "org_id".to_string(),
        data_type: "bigint".to_string(),
        is_primary_key: false,
        is_nullable: false,
    });
    table.foreign_keys.push(ErForeignKeyModel {
        name: "fk_users_org".to_string(),
        columns: vec!["org_id".to_string()],
        ref_table: "organizations".to_string(),
        ref_columns: vec!["id".to_string()],
    });
    table
}

fn users_table() -> ErTableModel {
    ErTableModel {
        name: "users".to_string(),
        schema: Some("public".to_string()),
        columns: vec![id_column()],
        foreign_keys: vec![],
    }
}

fn organizations_table() -> ErTableModel {
    ErTableModel {
        name: "organizations".to_string(),
        schema: Some("public".to_string()),
        columns: vec![id_column()],
        foreign_keys: vec![],
    }
}

fn orders_table() -> ErTableModel {
    ErTableModel {
        name: "orders".to_string(),
        schema: Some("public".to_string()),
        columns: vec![
            id_column(),
            ErColumnModel {
                name: "user_id".to_string(),
                data_type: "bigint".to_string(),
                is_primary_key: false,
                is_nullable: false,
            },
        ],
        foreign_keys: vec![],
    }
}

fn column(name: &str) -> ErColumnModel {
    ErColumnModel {
        name: name.to_string(),
        data_type: "bigint".to_string(),
        is_primary_key: false,
        is_nullable: true,
    }
}

fn id_column() -> ErColumnModel {
    ErColumnModel {
        name: "id".to_string(),
        data_type: "bigint".to_string(),
        is_primary_key: true,
        is_nullable: false,
    }
}

#[test]
fn er_tab_title_and_content_follow_the_load() {
    let mut config = ErDiagramConfig {
        connection_id: "c1".to_string(),
        database_name: "shop".to_string(),
        schema_name: Some("public".to_string()),
    };
    assert_eq!("public - ER", tab_title(&config));
    config.schema_name = None;
    assert_eq!("shop - ER", tab_title(&config));

    let mut tab: ErDiagramTabState<u32> = ErDiagramTabState::new();
    assert_eq!(TabContentView::Loading, tab.content());
    tab.apply_load_result(Err("no connection".to_string()));
    assert_eq!(TabContentView::Error("no connection".to_string()), tab.content());
    tab.reload();
    assert_eq!(TabContentView::Loading, tab.content());
    tab.apply_load_result(Ok(7));
    assert_eq!(TabContentView::Canvas, tab.content());
    assert_eq!(Some(7), tab.canvas);
}

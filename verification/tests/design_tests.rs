use steering::{
    ComponentAt, ComponentError, ComponentErrorKind, ComponentProperties, GridCoord, ShipDesign,
    ShipDesignRepository, Size, P2,
};

fn setup() -> ShipDesignRepository {
    let mut repo = ShipDesignRepository::new();

    let mut properties = ComponentProperties::new();
    properties.require_border_back = true;
    repo.add_component_def("engine", properties);

    let mut properties = ComponentProperties::new();
    properties.require_border_front = true;
    repo.add_component_def("cockpit", properties);

    let mut properties = ComponentProperties::new();
    properties.connect_rooms = true;
    properties.connect_outside = true;
    repo.add_component_def("airlock", properties);

    repo
}

#[test]
fn test_set_engines() {
    let repo = setup();
    let mut design = ShipDesign::new(4, 4);
    let comp = repo.get_by_code("engine").unwrap();

    match design.set_component(&repo, GridCoord::new(1, 1), Some(comp.id)) {
        Err(ComponentError {
            kind: ComponentErrorKind::RequireBackBorder,
            ..
        }) => {}
        other => panic!("not expected to work {:?}", other),
    }

    design
        .set_component(&repo, GridCoord::new(0, 1), Some(comp.id))
        .unwrap();

    design
        .set_component(&repo, GridCoord::new(1, 1), Some(comp.id))
        .unwrap();
}

#[test]
fn test_set_components_borders_between_components() {
    let repo = setup();
    let mut design = ShipDesign::new(4, 4);
    let engine_id = repo.get_id_by_code("engine").unwrap();
    let cockpit_id = repo.get_id_by_code("cockpit").unwrap();
    let airlock_id = repo.get_id_by_code("airlock").unwrap();

    for x in 0..3 {
        design
            .set_component(&repo, GridCoord::new(x, 1), Some(engine_id))
            .unwrap();
    }

    match design.set_component(&repo, GridCoord::new(3, 1), Some(cockpit_id)) {
        Err(ComponentError {
            kind: ComponentErrorKind::BorderOthers,
            ..
        }) => {}
        other => panic!("not expected to work {:?}", other),
    }

    design
        .set_component(&repo, GridCoord::new(3, 1), Some(airlock_id))
        .unwrap();
}

#[test]
fn test_set_components_borders() {
    let repo = setup();
    let mut design = ShipDesign::new(4, 4);
    let engine_id = repo.get_id_by_code("engine").unwrap();
    let airlock_id = repo.get_id_by_code("airlock").unwrap();

    for (x, y) in &[(0, 0), (0, 3)] {
        match design.set_component(&repo, GridCoord::new(*x, *y), Some(engine_id)) {
            Err(ComponentError {
                kind: ComponentErrorKind::BorderExternal,
                ..
            }) => {}
            other => panic!("not expected to work {:?}", other),
        }
    }

    design
        .set_component(&repo, GridCoord::new(2, 0), Some(airlock_id))
        .unwrap();
}

#[test]
fn test_set_cockpit() {
    let repo = setup();
    let mut design = ShipDesign::new(4, 4);
    let comp = repo.get_by_code("cockpit").unwrap();

    match design.set_component(&repo, GridCoord::new(1, 1), Some(comp.id)) {
        Err(ComponentError {
            kind: ComponentErrorKind::RequireFrontBorder,
            ..
        }) => {}
        other => panic!("not expected to work {:?}", other),
    }

    design
        .set_component(&repo, GridCoord::new(3, 1), Some(comp.id))
        .unwrap();

    design
        .set_component(&repo, GridCoord::new(2, 1), Some(comp.id))
        .unwrap();
}

#[test]
fn test_remove_component_should_check_for_constraints() {
    let repo = setup();
    let mut design = ShipDesign::new(3, 3);
    let comp = repo.get_by_code("engine").unwrap();

    design
        .set_component(&repo, GridCoord::new(0, 1), Some(comp.id))
        .unwrap();

    design
        .set_component(&repo, GridCoord::new(1, 1), Some(comp.id))
        .unwrap();

    match design.set_component(&repo, GridCoord::new(0, 1), None) {
        Err(ComponentError {
            kind: ComponentErrorKind::RequireBackBorder,
            ..
        }) => {}
        other => panic!("not expected to work {:?}", other),
    }
}

#[test]
fn new_design_is_empty() {
    let design = ShipDesign::new(4, 3);
    assert_eq!(design.get_width(), 4);
    assert_eq!(design.get_height(), 3);
    assert!(design.is_valid_coords(GridCoord::new(3, 2)));
    assert!(!design.is_valid_coords(GridCoord::new(4, 2)));
    let cells = design.list_components();
    assert_eq!(cells.len(), 12);
    assert!(cells.iter().all(|cell| cell.is_none()));
}

#[test]
fn point_keeps_its_fields() {
    let point = P2::new(-3, 4);
    assert_eq!(point, P2 { x: -3, y: 4 });
}

#[test]
fn size_keeps_its_fields() {
    let size = Size::new(7, 9);
    assert_eq!(size, Size { width: 7, height: 9 });
}

#[test]
fn accepted_component_is_listed_at_its_index() {
    let repo = setup();
    let mut design = ShipDesign::new(4, 4);
    let engine_id = repo.get_id_by_code("engine").unwrap();
    design
        .set_component(&repo, GridCoord::new(0, 2), Some(engine_id))
        .unwrap();
    let cells = design.list_components();
    let expected = ComponentAt { coords: GridCoord::new(0, 2), component_id: engine_id };
    let mut i: usize = 0;
    while i < cells.len() {
        if i == 8 {
            assert_eq!(cells[i], Some(&expected));
        } else {
            assert_eq!(cells[i], None);
        }
        i += 1;
    }
}

#[test]
fn rejected_component_leaves_the_design_unchanged() {
    let repo = setup();
    let mut design = ShipDesign::new(4, 4);
    let engine_id = repo.get_id_by_code("engine").unwrap();
    design
        .set_component(&repo, GridCoord::new(0, 1), Some(engine_id))
        .unwrap();
    let before: Vec<Option<ComponentAt>> =
        design.list_components().into_iter().map(|cell| cell.copied()).collect();

    let outcome = design.set_component(&repo, GridCoord::new(2, 2), Some(engine_id));
    assert_eq!(
        outcome,
        Err(ComponentError {
            coords: GridCoord::new(2, 2),
            kind: ComponentErrorKind::RequireBackBorder,
        })
    );
    let after: Vec<Option<ComponentAt>> =
        design.list_components().into_iter().map(|cell| cell.copied()).collect();
    assert_eq!(before, after);
}

#[test]
fn rejected_removal_keeps_the_component() {
    let repo = setup();
    let mut design = ShipDesign::new(3, 3);
    let engine_id = repo.get_id_by_code("engine").unwrap();
    design
        .set_component(&repo, GridCoord::new(0, 1), Some(engine_id))
        .unwrap();
    design
        .set_component(&repo, GridCoord::new(1, 1), Some(engine_id))
        .unwrap();
    let outcome = design.set_component(&repo, GridCoord::new(0, 1), None);
    // The violation is reported at the cell that lost its run to the back.
    assert_eq!(
        outcome,
        Err(ComponentError {
            coords: GridCoord::new(1, 1),
            kind: ComponentErrorKind::RequireBackBorder,
        })
    );
    assert_eq!(
        design.grid.get_at(GridCoord::new(0, 1)),
        Some(&ComponentAt { coords: GridCoord::new(0, 1), component_id: engine_id })
    );
}

#[test]
fn first_violation_in_reading_order_is_reported() {
    let repo = setup();
    let engine_id = repo.get_id_by_code("engine").unwrap();
    let cockpit_id = repo.get_id_by_code("cockpit").unwrap();
    let mut design = ShipDesign::new(4, 4);
    // Build a layout by hand that breaks rules in two rows.
    design.grid.set_at(
        GridCoord::new(2, 2),
        Some(ComponentAt { coords: GridCoord::new(2, 2), component_id: engine_id }),
    );
    design.grid.set_at(
        GridCoord::new(1, 1),
        Some(ComponentAt { coords: GridCoord::new(1, 1), component_id: cockpit_id }),
    );
    assert_eq!(
        ShipDesign::is_valid(&design.grid, &repo),
        Err(ComponentError {
            coords: GridCoord::new(1, 1),
            kind: ComponentErrorKind::RequireFrontBorder,
        })
    );
}

#[test]
fn cell_outside_the_layout_is_invalid() {
    let repo = setup();
    let design = ShipDesign::new(2, 2);
    assert_eq!(
        ShipDesign::is_valid_cell(&design.grid, &repo, GridCoord::new(2, 0)),
        Err(ComponentError {
            coords: GridCoord::new(2, 0),
            kind: ComponentErrorKind::InvalidCoords,
        })
    );
    assert_eq!(
        ShipDesign::is_valid_cell(&design.grid, &repo, GridCoord::new(1, 1)),
        Ok(())
    );
}

#[test]
fn edge_rule_is_checked_before_the_run_rules() {
    let repo = setup();
    let engine_id = repo.get_id_by_code("engine").unwrap();
    let mut design = ShipDesign::new(4, 4);
    // An engine in the first row breaks both the edge rule and, away from
    // column 0, the run rule; the edge rule is the one reported.
    assert_eq!(
        design.set_component(&repo, GridCoord::new(2, 0), Some(engine_id)),
        Err(ComponentError {
            coords: GridCoord::new(2, 0),
            kind: ComponentErrorKind::BorderExternal,
        })
    );
    // A cockpit in column 0 may not sit on the back edge.
    let cockpit_id = repo.get_id_by_code("cockpit").unwrap();
    assert_eq!(
        design.set_component(&repo, GridCoord::new(0, 1), Some(cockpit_id)),
        Err(ComponentError {
            coords: GridCoord::new(0, 1),
            kind: ComponentErrorKind::BorderExternal,
        })
    );
    // An engine in the last column may not sit on the front edge.
    assert_eq!(
        design.set_component(&repo, GridCoord::new(3, 1), Some(engine_id)),
        Err(ComponentError {
            coords: GridCoord::new(3, 1),
            kind: ComponentErrorKind::BorderExternal,
        })
    );
}

#[test]
fn run_counts_only_cells_of_the_same_kind() {
    let repo = setup();
    let engine_id = repo.get_id_by_code("engine").unwrap();
    let airlock_id = repo.get_id_by_code("airlock").unwrap();
    let mut design = ShipDesign::new(5, 3);
    design
        .set_component(&repo, GridCoord::new(0, 1), Some(engine_id))
        .unwrap();
    design
        .set_component(&repo, GridCoord::new(1, 1), Some(airlock_id))
        .unwrap();
    design.grid.set_at(
        GridCoord::new(2, 1),
        Some(ComponentAt { coords: GridCoord::new(2, 1), component_id: engine_id }),
    );
    assert_eq!(
        ShipDesign::raytrace_by_component(&design.grid, GridCoord::new(3, 1), -1, 0, engine_id),
        2
    );
    assert_eq!(
        ShipDesign::raytrace_by_component(&design.grid, GridCoord::new(3, 1), -1, 0, airlock_id),
        1
    );
    assert_eq!(
        ShipDesign::raytrace_by_component(&design.grid, GridCoord::new(3, 1), 1, 0, engine_id),
        0
    );
    // The engine at column 2 reaches back over two cells, only one its own.
    assert_eq!(
        ShipDesign::is_valid_cell(&design.grid, &repo, GridCoord::new(2, 1)),
        Err(ComponentError {
            coords: GridCoord::new(2, 1),
            kind: ComponentErrorKind::RequireBackBorder,
        })
    );
}

#[test]
fn default_properties_are_all_off() {
    let properties = ComponentProperties::new();
    assert!(!properties.require_border_back);
    assert!(!properties.require_border_front);
    assert!(!properties.connect_rooms);
    assert!(!properties.connect_outside);
}

#[test]
fn repository_ids_count_from_zero() {
    let mut repo = ShipDesignRepository::new();
    assert_eq!(repo.list_components().len(), 0);
    assert_eq!(repo.add_component_def("a", ComponentProperties::new()), 0);
    assert_eq!(repo.add_component_def("b", ComponentProperties::new()), 1);
    assert_eq!(repo.add_component_def("c", ComponentProperties::new()), 2);
    let defs = repo.list_components();
    assert_eq!(defs.len(), 3);
    assert_eq!(defs[1].id, 1);
    assert_eq!(defs[1].code, "b");
    assert_eq!(repo.get_component(2).code, "c");
    assert_eq!(repo.get_component(2).id, 2);
}

#[test]
fn repository_finds_the_first_entry_with_a_code() {
    let mut repo = ShipDesignRepository::new();
    let mut marked = ComponentProperties::new();
    marked.connect_rooms = true;
    repo.add_component_def("hull", ComponentProperties::new());
    repo.add_component_def("bay", marked);
    repo.add_component_def("bay", ComponentProperties::new());
    assert_eq!(repo.get_id_by_code("bay"), Some(1));
    let found = repo.get_by_code("bay").unwrap();
    assert_eq!(found.id, 1);
    assert!(found.properties.connect_rooms);
    assert_eq!(repo.get_id_by_code("hull"), Some(0));
    assert_eq!(repo.get_id_by_code("ba"), None);
    assert!(repo.get_by_code("").is_none());
}

#[test]
fn repository_clone_keeps_every_entry() {
    let repo = setup();
    let copy = repo.clone();
    assert_eq!(copy.list_components().len(), 3);
    assert_eq!(copy.get_id_by_code("airlock"), Some(2));
    assert!(copy.get_component(2).properties.connect_outside);
    assert!(copy.get_component(0).properties.require_border_back);
}

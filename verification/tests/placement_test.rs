use oscarv2::dsl::ast::{AgentDef, ConfigAst, Species, SpeciesKind as DslSpeciesKind, Value, VarDef, World as WorldDecl};
use oscarv2::dsl::parser::parse_file;
use oscarv2::engine::engine::create_species_from_ast;
use oscarv2::model::agent::SpeciesKind;
use oscarv2::model::builder::{
    create_world_from_ast, BuildError, SpeciesInfo, SpeciesTable, WorldBuilder,
};
use oscarv2::model::placement::PLACE_PERCENT;
use oscarv2::model::notation::{read_range_position, read_single_position, Rect};
use oscarv2::model::position::Position;
use oscarv2::model::world::{Cell, World};

fn chars(text: &str) -> Vec<char> {
    text.chars().collect()
}

fn not_found(name: &str) -> BuildError {
    BuildError::SpeciesNotFound { name: name.to_string() }
}

fn unknown(pattern: &str) -> BuildError {
    BuildError::UnknownSpecies { pattern: pattern.to_string() }
}

fn bad_range(range: &str) -> BuildError {
    BuildError::InvalidRange { range: range.to_string() }
}

fn bad_number(range: &str) -> BuildError {
    BuildError::InvalidNumber { range: range.to_string() }
}

fn builder_for(text: &str) -> WorldBuilder {
    WorldBuilder::from_config(&parse_file(text).unwrap()).unwrap()
}

fn placed(text: &str) -> World {
    create_world_from_ast(&parse_file(text).unwrap()).unwrap()
}

fn positions(world: &World) -> Vec<(usize, usize)> {
    world.agents.iter().map(|a| (a.pos.row, a.pos.col)).collect()
}

/// Every living agent's cell records it, no dead agent is recorded where it
/// died, ids are indices.
fn consistent(world: &World) -> bool {
    world.grid.len() == world.rows * world.cols
        && world.agents.iter().enumerate().all(|(i, a)| {
            let recorded = world.get(a.pos).map(|c: &Cell| c.agent == Some(i));
            a.id == i && if a.alive { recorded == Some(true) } else { recorded != Some(true) }
        })
}

#[test]
fn single_positions_name_a_cell() {
    assert_eq!(read_single_position(&chars("(5,10)")), Some(Position::new(5, 10)));
    assert_eq!(read_single_position(&chars("( 5 ,\t10 )")), Some(Position::new(5, 10)));
    assert_eq!(read_single_position(&chars("((+5,010))")), Some(Position::new(5, 10)));
    assert_eq!(read_single_position(&chars("5,10")), Some(Position::new(5, 10)));
    assert_eq!(read_single_position(&chars(")5,10(")), Some(Position::new(5, 10)));
    assert_eq!(read_single_position(&chars("(1,2(")), Some(Position::new(1, 2)));
    assert_eq!(
        read_single_position(&chars("(18446744073709551615,0)")).map(|p| p.row as u128 <= u64::MAX as u128),
        Some(true)
    );
    for text in ["", "()", "(5)", "(5,)", "(,5)", "(5,10,15)", "(a,1)", "(1,-1)", "(1 2,3)", "(99999999999999999999999,0)", "(1,(2))"] {
        assert_eq!(read_single_position(&chars(text)), None, "{:?}", text);
    }
}

#[test]
fn range_positions_name_a_rectangle() {
    let rect = |a, b, c, d| Rect { row_start: a, row_end: b, col_start: c, col_end: d };
    assert_eq!(read_range_position(&chars("(0:64,1:2)")), Ok(Some(rect(0, 64, 1, 2))));
    assert_eq!(read_range_position(&chars("( 20:25 , +3:3 )")), Ok(Some(rect(20, 25, 3, 3))));
    assert_eq!(read_range_position(&chars("5:1,0:0")), Ok(Some(rect(5, 1, 0, 0))));
    // Without exactly one comma the position names nothing.
    assert_eq!(read_range_position(&chars("(0:64)")), Ok(None));
    assert_eq!(read_range_position(&chars("(0:1,2:3,4:5)")), Ok(None));
    assert_eq!(read_range_position(&chars("")), Ok(None));
    // The error holds the side that is no range, without the blanks around it.
    for (text, side) in [("(0:64,5)", "5"), ("(5,0:64)", "5"), ("(0:1:2,3:4)", "0:1:2"), ("(,0:1)", ""), ("(0:1,)", ""), ("(0:1, )", ""), ("(0:1, 7 )", "7")] {
        assert_eq!(read_range_position(&chars(text)), Err(bad_range(side)), "{:?}", text);
    }
    for (text, side) in [
        ("(a:1,0:1)", "a:1"),
        ("(0:1,0:b)", "0:b"),
        ("(0: 1,0:1)", "0: 1"),
        ("(:1,0:1)", ":1"),
        ("(0:,0:1)", "0:"),
        ("(0:-1,0:1)", "0:-1"),
        ("(0:1,0:99999999999999999999999)", "0:99999999999999999999999"),
    ] {
        assert_eq!(read_range_position(&chars(text)), Err(bad_number(side)), "{:?}", text);
    }
    // The rows are read first.
    assert_eq!(read_range_position(&chars("(a:1,5)")), Err(bad_number("a:1")));
    assert_eq!(read_range_position(&chars("(5,a:1)")), Err(bad_range("5")));
    let builder = builder_for("world 2 2 FFF");
    assert_eq!(builder.parse_range_part("20:25"), Ok((20, 25)));
    assert_eq!(builder.parse_range_part("20"), Err(bad_range("20")));
    assert_eq!(builder.parse_range_part("x:25"), Err(bad_number("x:25")));
}

#[test]
fn every_build_error_has_its_input() {
    let empty = ConfigAst { world: None, species: vec![], agents: vec![] };
    assert_eq!(WorldBuilder::from_config(&empty).unwrap_err(), BuildError::NoWorld);
    assert_eq!(create_world_from_ast(&empty).unwrap_err(), BuildError::NoWorld);
    let huge = ConfigAst {
        world: Some(WorldDecl { cols: usize::MAX, rows: 2, color: "FFF".to_string() }),
        species: vec![],
        agents: vec![],
    };
    assert_eq!(WorldBuilder::from_config(&huge).unwrap_err(), BuildError::WorldTooLarge);
    let negative = parse_file("world -1 -1 FFF").unwrap();
    assert_eq!(create_world_from_ast(&negative).unwrap_err(), BuildError::WorldTooLarge);
    let mut builder = builder_for("world 2 2 FFF\nmineral rock 888");
    assert_eq!(builder.add_agent("sand", Position::new(0, 0)).unwrap_err(), not_found("sand"));
    assert_eq!(builder.agents.len(), 0);
    let config = parse_file("world 2 2 FFF\nmineral rock 888\nagent sand (0,0)").unwrap();
    assert_eq!(create_world_from_ast(&config).unwrap_err(), unknown("sand"));
    let config = parse_file("world 2 2 FFF\nmineral rock 888\nagent rock (0:1)").unwrap();
    // A range without a comma names nothing and is passed over.
    assert!(create_world_from_ast(&config).unwrap().agents.is_empty());
    let config = parse_file("world 2 2 FFF\nmineral rock 888\nagent rock (0:1,0)").unwrap();
    assert_eq!(create_world_from_ast(&config).unwrap_err(), bad_range("0"));
    let config = parse_file("world 2 2 FFF\nmineral rock 888\nagent rock (0:x,0:1)").unwrap();
    assert_eq!(create_world_from_ast(&config).unwrap_err(), bad_number("0:x"));
    for (error, message) in [
        (BuildError::NoWorld, "No world configuration found"),
        (BuildError::WorldTooLarge, "World too large"),
        (not_found("sand"), "Species 'sand' not found"),
        (not_found(""), "Species '' not found"),
        (unknown("(void,rock)"), "Aucune espèce reconnue dans le pattern: (void,rock)"),
        (bad_range("0:1:2"), "Format de range invalide: 0:1:2"),
        (bad_range(""), "Format de range invalide: "),
        (bad_number("0:x"), "Invalid number in range: 0:x"),
    ] {
        assert_eq!(error.message(), message);
    }
}

#[test]
fn the_table_keeps_the_first_place_and_the_last_declaration() {
    let config = parse_file(
        "world 4 4 FFF\nmineral rock 888\nvar a\nvegetal tree green\nanimal rock F00\nvar b\nvar c",
    )
    .unwrap();
    let builder = WorldBuilder::from_config(&config).unwrap();
    assert_eq!(builder.species_map.len(), 2);
    let names: Vec<&str> = builder.species_map.entries.iter().map(|e| e.name.as_str()).collect();
    assert_eq!(names, vec!["rock", "tree"]);
    let rock = builder.species_map.get("rock").unwrap();
    assert_eq!(rock.kind, SpeciesKind::Animal);
    assert_eq!(rock.color, 0xFF0000);
    assert_eq!(rock.var_names, vec!["b", "c"]);
    assert_eq!(rock.default_status, "rock");
    assert_eq!(rock.species_id, 2);
    let tree = builder.species_map.get("tree").unwrap();
    assert_eq!(tree.kind, SpeciesKind::Vegetal);
    assert_eq!(tree.color, 0x00FF00);
    assert_eq!(tree.species_id, 1);
    assert!(builder.species_map.contains_key("tree"));
    assert!(!builder.species_map.contains_key("Tree"));
    assert!(builder.species_map.get("").is_none());
    assert_eq!(builder.species_map.position("tree"), Some(1));
    let mut table = SpeciesTable::new();
    assert_eq!(table.len(), 0);
    let info = SpeciesInfo {
        kind: SpeciesKind::Mineral,
        color: 1,
        var_names: vec![],
        default_status: "x".to_string(),
        species_id: 0,
    };
    table.insert("x".to_string(), info.clone());
    table.insert("y".to_string(), info.clone());
    table.insert("x".to_string(), SpeciesInfo { color: 2, ..info });
    assert_eq!(table.len(), 2);
    assert_eq!(table.get("x").unwrap().color, 2);
    assert_eq!(table.get("y").unwrap().color, 1);
}

#[test]
fn add_agent_places_one_agent() {
    let mut builder = builder_for("world 4 3 FFF\nanimal wolf red\nvar hunger\nvar age");
    assert_eq!(builder.add_agent("wolf", Position::new(2, 3)), Ok(0));
    assert_eq!(builder.add_agent("wolf", Position::new(0, 0)), Ok(1));
    // Off the grid the agent is still created; only no cell records it.
    assert_eq!(builder.add_agent("wolf", Position::new(3, 0)), Ok(2));
    assert_eq!(builder.agents.len(), 3);
    let wolf = &builder.agents[0];
    assert_eq!((wolf.id, wolf.pos, wolf.species, wolf.species_id), (0, Position::new(2, 3), SpeciesKind::Animal, 0));
    assert_eq!(wolf.status, "wolf");
    assert_eq!(wolf.color, 0xFF0000);
    assert_eq!(wolf.vars, vec![0, 0]);
    assert!(wolf.alive);
    assert_eq!(builder.world.get(Position::new(2, 3)).unwrap().agent, Some(0));
    assert_eq!(builder.world.get(Position::new(0, 0)).unwrap().agent, Some(1));
    assert_eq!(builder.world.grid.iter().filter(|c| c.agent.is_some()).count(), 2);
    let (world, agents) = builder.build();
    assert_eq!((world.rows, world.cols), (3, 4));
    assert!(world.agents.is_empty());
    assert_eq!(agents.len(), 3);
}

#[test]
fn patterns_resolve_to_the_first_declared_name_they_hold() {
    let builder = builder_for("world 4 4 FFF\nmineral void 000\nmineral tree 0F0\nmineral re F00\nmineral ee 00F");
    assert_eq!(builder.resolve_species_from_pattern("tree").unwrap(), "tree");
    assert_eq!(builder.resolve_species_from_pattern("ee").unwrap(), "ee");
    assert_eq!(builder.resolve_species_from_pattern("(void,tree,tree)").unwrap(), "void");
    assert_eq!(builder.resolve_species_from_pattern("(tree,void)").unwrap(), "void");
    assert_eq!(builder.resolve_species_from_pattern("trees").unwrap(), "tree");
    assert_eq!(builder.resolve_species_from_pattern("free").unwrap(), "re");
    assert_eq!(builder.resolve_species_from_pattern("bee").unwrap(), "ee");
    assert_eq!(builder.resolve_species_from_pattern("rock").unwrap_err(), unknown("rock"));
    assert_eq!(builder.resolve_species_from_pattern("").unwrap_err(), unknown(""));
    assert_eq!(builder.resolve_species_from_pattern("TREE").unwrap_err(), unknown("TREE"));
    let nameless = builder_for("world 1 1 FFF");
    assert_eq!(nameless.resolve_species_from_pattern("x").unwrap_err(), unknown("x"));
}

#[test]
fn a_range_fills_its_rectangle_on_the_grid() {
    let world = placed("world 4 3 FFF\nmineral rock A88\nagent rock (1:2,1:5)");
    assert_eq!((world.rows, world.cols), (3, 4));
    assert_eq!(positions(&world), vec![(1, 1), (1, 2), (1, 3), (2, 1), (2, 2), (2, 3)]);
    assert!(world.agents.iter().enumerate().all(|(i, a)| a.id == i && a.alive && a.color == 0xAA8888));
    assert!(consistent(&world));
    let world = placed("world 64 64 FFF\nmineral tree 0F0\nagent tree (0:64,0:64)");
    assert_eq!(world.agents.len(), 64 * 64);
    assert!(consistent(&world));
    // A rectangle that is empty or off the grid places nothing.
    for range in ["(2:1,0:3)", "(0:3,2:1)", "(3:9,0:3)", "(0:3,4:9)"] {
        let world = placed(&format!("world 4 3 FFF\nmineral rock 888\nagent rock {}", range));
        assert!(world.agents.is_empty(), "{}", range);
    }
    // So an unknown species is no error there.
    let world = placed("world 4 3 FFF\nmineral rock 888\nagent sand (3:9,0:3)");
    assert!(world.agents.is_empty());
    let config = parse_file("world 4 3 FFF\nmineral rock 888\nagent sand (2:2,0:0)").unwrap();
    assert_eq!(create_world_from_ast(&config).unwrap_err(), unknown("sand"));
}

#[test]
fn positions_are_placed_in_their_order() {
    let world = placed(
        "world 5 5 FFF\nmineral a A11\nvegetal b B22\nagent a (4,4) (0:0,0:1) x (9,9) (1,1)\nagent b (2,2) (3) (2,3)",
    );
    assert_eq!(positions(&world), vec![(4, 4), (0, 0), (0, 1), (1, 1), (2, 2), (2, 3)]);
    let species: Vec<usize> = world.agents.iter().map(|a| a.species_id).collect();
    assert_eq!(species, vec![0, 0, 0, 0, 1, 1]);
    assert_eq!(world.agents[4].species, SpeciesKind::Vegetal);
    assert_eq!(world.agents[4].color, 0xBB2222);
    assert_eq!(world.agents[4].status, "b");
    assert!(consistent(&world));
}

#[test]
fn a_later_agent_takes_the_cell_of_an_earlier_one() {
    let world = placed("world 2 2 FFF\nmineral a 111\nagent a (0,0) (0,0)");
    assert_eq!(world.agents.len(), 2);
    assert_eq!(world.get(Position::new(0, 0)).unwrap().agent, Some(1));
    assert!(world.agents[0].alive);
    assert!(!consistent(&world));
}

#[test]
fn a_sparse_pattern_places_on_some_cells_of_the_range() {
    assert_eq!(PLACE_PERCENT, 30);
    let text = "world 50 40 FFF\nmineral void 000\nmineral tree 0F0\nagent (tree,void) (0:39,0:49)";
    let world = placed(text);
    let count = world.agents.len();
    // 2000 cells at 30 in a hundred: 600 on average, far from none and from all.
    assert!(count > 300 && count < 900, "{}", count);
    assert!(consistent(&world));
    // The cells come row by row without repeats.
    let cells = positions(&world);
    assert!(cells.windows(2).all(|w| w[0] < w[1]));
    assert!(cells.iter().all(|(r, c)| *r < 40 && *c < 50));
    // What stands first among the declared names is what is placed.
    // Its colour was written `000`, an integer, which as a colour text is `0`: no colour.
    assert!(world.agents.iter().all(|a| a.color == 0x808080 && a.status == "void" && a.species_id == 0));
    assert_eq!(parse_file(text).unwrap().species[0].color, "0");
    let builder = builder_for(text);
    assert!(builder.should_place_at_position("(tree,void)", 0));
    assert!(builder.should_place_at_position("(tree,void)", 29));
    assert!(!builder.should_place_at_position("(tree,void)", 30));
    assert!(!builder.should_place_at_position("avoid", 99));
    assert!(builder.should_place_at_position("tree", 99));
    assert!(builder.should_place_at_position("Void", 99));
}

#[test]
fn a_sparse_pattern_without_a_species_fails_at_the_first_placement() {
    let config = parse_file("world 30 30 FFF\nmineral tree 0F0\nagent (void,rock) (0:29,0:29)").unwrap();
    assert_eq!(create_world_from_ast(&config).unwrap_err(), unknown("(void,rock)"));
    // With no cell to visit there is no placement and no error.
    let config = parse_file("world 30 30 FFF\nmineral tree 0F0\nagent (void,rock) (30:31,0:29)").unwrap();
    assert!(create_world_from_ast(&config).unwrap().agents.is_empty());
}

#[test]
fn add_agents_pattern_fills_a_rectangle_if_the_pattern_lists_the_species() {
    let text = "world 3 3 FFF\nmineral tree 0F0\nmineral rock 888";
    let mut builder = builder_for(text);
    assert_eq!(builder.add_agents_pattern("tree", "(void, tree ,rock)", (1, 5, 0, 1)), Ok(()));
    let cells: Vec<(usize, usize)> = builder.agents.iter().map(|a| (a.pos.row, a.pos.col)).collect();
    assert_eq!(cells, vec![(1, 0), (1, 1), (2, 0), (2, 1)]);
    assert!(builder.agents.iter().all(|a| a.status == "tree" && a.species_id == 0));
    for pattern in ["(void,trees)", "rock", "", "(tre,e)", "tree rock"] {
        let mut builder = builder_for(text);
        assert_eq!(builder.add_agents_pattern("tree", pattern, (0, 2, 0, 2)), Ok(()));
        assert!(builder.agents.is_empty(), "{:?}", pattern);
    }
    for pattern in ["tree", "((tree))", "rock,tree", ",tree,", "\ttree "] {
        let mut builder = builder_for(text);
        assert_eq!(builder.add_agents_pattern("tree", pattern, (2, 2, 2, 2)), Ok(()));
        assert_eq!(builder.agents.len(), 1, "{:?}", pattern);
    }
    let mut builder = builder_for(text);
    assert_eq!(builder.add_agents_pattern("sand", "(sand)", (0, 0, 0, 0)), Err(not_found("sand")));
    assert_eq!(builder.add_agents_pattern("sand", "(sand)", (3, 3, 0, 0)), Ok(()));
    assert_eq!(builder.add_agents_pattern("sand", "(sand)", (1, 0, 0, 0)), Ok(()));
    assert!(builder.agents.is_empty());
    // An empty name is listed by an empty part.
    let mut builder = builder_for("world 1 1 FFF\nmineral x 000");
    assert_eq!(builder.add_agents_pattern("", "a,,b", (0, 0, 0, 0)), Err(not_found("")));
}

#[test]
fn species_compile_in_their_order() {
    let config = ConfigAst {
        world: None,
        species: vec![
            Species {
                kind: DslSpeciesKind::Animal,
                name: "wolf".to_string(),
                color: "#ABCDEF".to_string(),
                vars: vec![
                    VarDef { name: "hunger".to_string(), init_value: Value::Int(50), timestep: 1 },
                    VarDef { name: "age".to_string(), init_value: Value::Str("x".to_string()), timestep: -2 },
                ],
                statuses: vec![oscarv2::dsl::ast::StatusRule {
                    variable: Some("hunger".to_string()),
                    less_than: Some(false),
                    threshold: Some(100),
                    new_status: "dead".to_string(),
                }],
                births: vec![oscarv2::dsl::ast::BirthRule {
                    variable: None,
                    less_than: None,
                    threshold: Some(3),
                    child_status: "pup".to_string(),
                }],
                fields: vec![oscarv2::dsl::ast::FieldDef { name: "scent".to_string(), step: 4 }],
                sensors: vec![oscarv2::dsl::ast::SensorDef {
                    name: "nose".to_string(),
                    fields: vec![oscarv2::dsl::ast::SensorField { field: "scent".to_string(), sensitivity: 1000 }],
                }],
            },
            Species {
                kind: DslSpeciesKind::Mineral,
                name: "rock".to_string(),
                color: "no such colour".to_string(),
                vars: vec![],
                statuses: vec![],
                births: vec![],
                fields: vec![],
                sensors: vec![],
            },
        ],
        agents: vec![AgentDef { species_pattern: "wolf".to_string(), positions: vec![] }],
    };
    let defs = create_species_from_ast(&config).unwrap();
    assert_eq!(defs.len(), 2);
    let wolf = &defs[0];
    assert_eq!(wolf.kind, SpeciesKind::Animal);
    assert_eq!(wolf.color, 0xABCDEF);
    assert_eq!(wolf.num_vars, 2);
    assert_eq!(wolf.timesteps, vec![1, -2]);
    assert_eq!(wolf.status_rules.len(), 1);
    assert_eq!(wolf.status_rules[0].variable.as_deref(), Some("hunger"));
    assert_eq!(wolf.status_rules[0].less_than, Some(false));
    assert_eq!(wolf.status_rules[0].threshold, Some(100));
    assert_eq!(wolf.status_rules[0].new_status, "dead");
    assert_eq!(wolf.birth_rules.len(), 1);
    assert_eq!(wolf.birth_rules[0].variable, None);
    assert_eq!(wolf.birth_rules[0].threshold, Some(3));
    assert_eq!(wolf.birth_rules[0].child_status, "pup");
    assert_eq!(wolf.field_defs.len(), 1);
    assert_eq!(wolf.field_defs[0].name, "scent");
    assert_eq!(wolf.field_defs[0].step, 4);
    assert!(wolf.sensors.is_empty());
    let rock = &defs[1];
    assert_eq!(rock.kind, SpeciesKind::Mineral);
    assert_eq!(rock.color, 0x808080);
    assert_eq!(rock.num_vars, 0);
    assert!(rock.timesteps.is_empty());
}

#[test]
fn spawns_kills_and_moves_on_free_cells_keep_the_world_consistent() {
    let mut world = World::new(3, 3);
    assert!(consistent(&world));
    let a = world.spawn_agent(Position::new(0, 0), SpeciesKind::Animal, 0, "a".to_string(), 0, 0);
    let b = world.spawn_agent(Position::new(1, 1), SpeciesKind::Animal, 0, "b".to_string(), 0, 0);
    assert!(consistent(&world));
    world.move_agent(a, Position::new(2, 2));
    assert!(consistent(&world));
    world.kill_agent(b);
    assert!(consistent(&world));
    world.move_agent(a, Position::new(1, 1));
    assert!(consistent(&world));
    // Killing the dead agent again leaves the cell to the living one.
    world.kill_agent(b);
    assert!(consistent(&world));
    assert!(world.agents[a].alive);
    assert!(!world.agents[b].alive);
    assert_eq!(world.get(Position::new(1, 1)).unwrap().agent, Some(a));
    world.kill_agent(99);
    assert!(consistent(&world));
    assert_eq!(world.agents.len(), 2);
    // A move onto a taken cell, or off the grid, breaks it.
    let mut world = World::new(2, 2);
    let a = world.spawn_agent(Position::new(0, 0), SpeciesKind::Animal, 0, "a".to_string(), 0, 0);
    let b = world.spawn_agent(Position::new(1, 1), SpeciesKind::Animal, 0, "b".to_string(), 0, 0);
    world.move_agent(a, Position::new(1, 1));
    assert_eq!(world.get(Position::new(1, 1)).unwrap().agent, Some(a));
    assert!(world.agents[b].alive);
    assert!(!consistent(&world));
    let mut world = World::new(2, 2);
    let a = world.spawn_agent(Position::new(0, 0), SpeciesKind::Animal, 0, "a".to_string(), 0, 0);
    world.move_agent(a, Position::new(5, 5));
    assert_eq!(world.agents[a].pos, Position::new(5, 5));
    assert!(world.grid.iter().all(|c| c.agent.is_none()));
    assert!(!consistent(&world));
    // A spawn off the grid creates the agent and touches no cell.
    let mut world = World::new(2, 2);
    assert_eq!(world.spawn_agent(Position::new(2, 0), SpeciesKind::Animal, 0, "a".to_string(), 0, 0), 0);
    assert_eq!(world.agents.len(), 1);
    assert!(world.grid.iter().all(|c| c.agent.is_none()));
}

#[test]
fn a_colour_of_digits_is_read_as_a_number_first() {
    // `888` is an integer token; its colour text is the number in hexadecimal.
    let config = parse_file("world 2 2 FFF\nmineral rock 888\nmineral coal 000\nmineral ore 123456\nagent rock (0,0)").unwrap();
    assert_eq!(config.species[0].color, "378");
    assert_eq!(config.species[1].color, "0");
    assert_eq!(config.species[2].color, "1E240");
    let builder = WorldBuilder::from_config(&config).unwrap();
    assert_eq!(builder.species_map.get("rock").unwrap().color, 0x337788);
    // One digit and five digits are no colour notation: gray.
    assert_eq!(builder.species_map.get("coal").unwrap().color, 0x808080);
    assert_eq!(builder.species_map.get("ore").unwrap().color, 0x808080);
    let defs = create_species_from_ast(&config).unwrap();
    assert_eq!(defs[0].color, 0x337788);
    assert_eq!(create_world_from_ast(&config).unwrap().agents[0].color, 0x337788);
}

#[test]
fn a_second_kill_leaves_the_cell_to_who_stands_there() {
    let mut w = World::new(1, 1);
    assert_eq!(w.spawn_agent(Position::new(0, 0), SpeciesKind::Mineral, 0, "a".to_string(), 0, 0), 0);
    w.kill_agent(0);
    assert!(w.get(Position::new(0, 0)).unwrap().agent.is_none());
    assert_eq!(w.spawn_agent(Position::new(0, 0), SpeciesKind::Mineral, 0, "b".to_string(), 0, 0), 1);
    w.kill_agent(0);
    assert_eq!(w.agents.len(), 2);
    assert!(!w.agents[0].alive);
    assert!(w.agents[1].alive);
    assert_eq!(w.get(Position::new(0, 0)).unwrap().agent, Some(1));
    assert!(consistent(&w));
    // The living one's own kill empties the cell.
    w.kill_agent(1);
    assert!(!w.agents[1].alive);
    assert!(w.get(Position::new(0, 0)).unwrap().agent.is_none());
    assert!(consistent(&w));
}

#[test]
fn a_kill_empties_only_a_cell_that_records_the_agent() {
    // An agent marked dead by hand is still recorded: its kill takes the record away.
    let mut w = World::new(2, 2);
    let a = w.spawn_agent(Position::new(0, 1), SpeciesKind::Mineral, 0, "a".to_string(), 0, 0);
    w.agents[a].kill();
    assert_eq!(w.get(Position::new(0, 1)).unwrap().agent, Some(a));
    w.kill_agent(a);
    assert!(w.get(Position::new(0, 1)).unwrap().agent.is_none());
    // A record of someone else, a marked cell and an agent off the grid are left as they are.
    let b = w.spawn_agent(Position::new(1, 1), SpeciesKind::Mineral, 0, "b".to_string(), 0, 0);
    w.set_agent(Position::new(1, 1), Some(42));
    w.set_trace(Position::new(1, 1));
    w.kill_agent(b);
    assert!(!w.agents[b].alive);
    let cell = w.get(Position::new(1, 1)).unwrap();
    assert_eq!((cell.agent, cell.trace), (Some(42), true));
    let c = w.spawn_agent(Position::new(5, 5), SpeciesKind::Mineral, 0, "c".to_string(), 0, 0);
    w.kill_agent(c);
    assert!(!w.agents[c].alive);
    assert_eq!(w.agents.len(), 3);
    assert_eq!(w.agents[c].pos, Position::new(5, 5));
}

use oscarv2::dsl::ast::SpeciesKind;
use oscarv2::dsl::parser::{parse_file, parse_tokens, Directive, ParseError};
use oscarv2::dsl::token::{Token, TokenKind};
use oscarv2::dsl::tokenizer::tokenize;
use oscarv2::engine::engine::{create_species_from_ast, Engine};
use oscarv2::model::agent;
use oscarv2::model::builder::create_world_from_ast;
use oscarv2::model::position::Position;
use oscarv2::model::world::World;

fn ident(text: &str, line: usize) -> Token {
    Token { kind: TokenKind::Ident(text.to_string()), line }
}

fn number(n: i32, line: usize) -> Token {
    Token { kind: TokenKind::Number(n), line }
}

fn symbol(text: &str, line: usize) -> Token {
    Token { kind: TokenKind::Symbol(text.to_string()), line }
}

fn eol(line: usize) -> Token {
    Token { kind: TokenKind::Eol, line }
}

#[test]
fn a_placed_agent_stands_on_its_cell_with_its_colour() {
    let config = parse_file("world 3 3 FFF\nmineral t 0F0\nagent t (1,1)").unwrap();
    let world_decl = config.world.as_ref().unwrap();
    assert_eq!((world_decl.cols, world_decl.rows), (3, 3));
    assert_eq!(world_decl.color, "FFF");
    assert_eq!(config.species.len(), 1);
    assert_eq!(config.species[0].name, "t");

    let world = create_world_from_ast(&config).unwrap();
    assert_eq!((world.rows, world.cols), (3, 3));
    assert_eq!(world.grid.len(), 9);
    assert_eq!(world.agents.len(), 1);
    let agent = &world.agents[0];
    assert!(agent.alive);
    assert_eq!(agent.id, 0);
    assert_eq!(agent.pos, Position::new(1, 1));
    assert_eq!(agent.color, 0x00FF00);
    assert_eq!(agent.species, agent::SpeciesKind::Mineral);
    assert_eq!(agent.species_id, 0);
    assert_eq!(agent.status, "t");
    for (i, cell) in world.grid.iter().enumerate() {
        assert_eq!(cell.agent, if i == 4 { Some(0) } else { None });
    }
}

#[test]
fn an_unguarded_dead_rule_kills_in_one_tick() {
    let config = parse_file("mineral fire F00\nstatus dead").unwrap();
    let species = create_species_from_ast(&config).unwrap();
    assert_eq!(species.len(), 1);
    assert_eq!(species[0].color, 0xFF0000);
    for cell in [(0, 0), (2, 3), (4, 4)] {
        let mut world = World::new(5, 5);
        let species = create_species_from_ast(&config).unwrap();
        let pos = Position::new(cell.0, cell.1);
        world.spawn_agent(pos, agent::SpeciesKind::Mineral, 0, "fire".to_string(), 0xFF0000, 0);
        let mut engine = Engine::new(world, species);
        assert_eq!(engine.world.agents.iter().filter(|a| a.alive).count(), 1);
        let alive = engine.step();
        assert_eq!(alive, 0);
        assert_eq!(engine.world.agents.len(), 1);
        assert!(!engine.world.agents[0].alive);
        assert!(engine.world.get(pos).unwrap().agent.is_none());
    }
}

#[test]
fn a_short_world_statement_is_rejected() {
    let error = parse_file("world 32").unwrap_err();
    assert_eq!(error, ParseError::InvalidWorldSyntax { line: 1 });
    assert!(error.message().contains("Invalid world syntax"));
    assert_eq!(error.message(), "Invalid world syntax at line 1");
    assert_eq!(error.line(), 1);
}

#[test]
fn species_gather_what_follows_their_header() {
    let config = parse_file("mineral a X\nvar h\nmineral b Y\nvar f").unwrap();
    assert_eq!(config.species.len(), 2);
    assert_eq!(config.species[0].name, "a");
    assert_eq!(config.species[0].color, "X");
    assert_eq!(config.species[0].vars.len(), 1);
    assert_eq!(config.species[0].vars[0].name, "h");
    assert_eq!(config.species[1].name, "b");
    assert_eq!(config.species[1].color, "Y");
    assert_eq!(config.species[1].vars.len(), 1);
    assert_eq!(config.species[1].vars[0].name, "f");
}

#[test]
fn world_statements_give_their_operands() {
    for (cols, rows, color) in [(1, 1, "FFF"), (32, 64, "white"), (0, 7, "x"), (2147483647, 5, "a1")] {
        let text = format!("world {} {} {}", cols, rows, color);
        let config = parse_file(&text).unwrap();
        let world = config.world.unwrap();
        assert_eq!(world.cols, cols as usize);
        assert_eq!(world.rows, rows as usize);
        assert_eq!(world.color, color);
        assert!(config.species.is_empty());
        assert!(config.agents.is_empty());
    }
}

#[test]
fn a_numeric_world_colour_is_written_in_hexadecimal() {
    let world = parse_file("world 16 24 000").unwrap().world.unwrap();
    assert_eq!((world.cols, world.rows), (16, 24));
    assert_eq!(world.color, "0");
    let world = parse_file("world 1 1 255").unwrap().world.unwrap();
    assert_eq!(world.color, "FF");
    let world = parse_file("world 1 1 -1").unwrap().world.unwrap();
    assert_eq!(world.color, "FFFFFFFF");
    let world = parse_file("world 1 1 -2147483648").unwrap().world.unwrap();
    assert_eq!(world.color, "80000000");
    let species = parse_file("mineral test 123456").unwrap().species;
    assert_eq!(species[0].color, "1E240");
}

#[test]
fn the_last_world_statement_wins() {
    let config = parse_file("world 32 32 FFF\nworld 16 8 000").unwrap();
    let world = config.world.unwrap();
    assert_eq!((world.cols, world.rows), (16, 8));
    assert_eq!(world.color, "0");
}

#[test]
fn negative_dimensions_wrap_around() {
    let world = parse_file("world -1 -2 FFF").unwrap().world.unwrap();
    assert_eq!(world.cols, usize::MAX);
    assert_eq!(world.rows, usize::MAX - 1);
}

#[test]
fn every_parse_error_has_its_input() {
    let cases: [(&str, ParseError, &str); 13] = [
        ("world 32", ParseError::InvalidWorldSyntax { line: 1 }, "Invalid world syntax at line 1"),
        ("\nworld 1", ParseError::InvalidWorldSyntax { line: 2 }, "Invalid world syntax at line 2"),
        (
            "\nworld 1 2",
            ParseError::ExpectedWorldColor { line: 2 },
            "Expected color identifier or number at line 2",
        ),
        ("world a 2 FFF", ParseError::InvalidWorldSyntax { line: 1 }, "Invalid world syntax at line 1"),
        (
            "world 1 2 1.5",
            ParseError::ExpectedWorldColor { line: 1 },
            "Expected color identifier or number at line 1",
        ),
        (
            "world 1 2 <",
            ParseError::ExpectedWorldColor { line: 1 },
            "Expected color identifier or number at line 1",
        ),
        ("mineral", ParseError::ExpectedSpeciesName { line: 1 }, "Expected name after species at line 1"),
        ("animal 5 F00", ParseError::ExpectedSpeciesName { line: 1 }, "Expected name after species at line 1"),
        ("\n\nvegetal tree", ParseError::ExpectedSpeciesColor { line: 3 }, "Expected color at line 3"),
        (
            "var x",
            ParseError::OutsideSpecies { directive: Directive::Var, line: 1 },
            "var outside of species at line 1",
        ),
        (
            "#\nblock x",
            ParseError::OutsideSpecies { directive: Directive::Block, line: 2 },
            "block outside of species at line 2",
        ),
        (
            "mineral a b\nvar 3",
            ParseError::ExpectedVariableName { line: 2 },
            "Expected variable name after var at line 2",
        ),
        (
            "mineral a b\nstatus :",
            ParseError::ExpectedStatusName { line: 2 },
            "Expected status name at line 2",
        ),
    ];
    for (input, error, message) in cases {
        let got = parse_file(input).unwrap_err();
        assert_eq!(got, error, "{:?}", input);
        assert_eq!(got.message(), message, "{:?}", input);
    }
    let got = parse_file("status s").unwrap_err();
    assert_eq!(got, ParseError::OutsideSpecies { directive: Directive::Status, line: 1 });
    let got = parse_file("sensor s").unwrap_err();
    assert_eq!(got, ParseError::OutsideSpecies { directive: Directive::Sensor, line: 1 });
    let got = parse_file("field s").unwrap_err();
    assert_eq!(got, ParseError::OutsideSpecies { directive: Directive::Field, line: 1 });
    assert_eq!(got.message(), "field outside of species at line 1");
    assert_eq!(Directive::Sensor.keyword(), "sensor");
}

#[test]
fn a_line_number_of_several_digits_is_written_out() {
    let text = "\n".repeat(1204) + "world";
    let got = parse_file(&text).unwrap_err();
    assert_eq!(got, ParseError::InvalidWorldSyntax { line: 1205 });
    assert_eq!(got.message(), "Invalid world syntax at line 1205");
}

#[test]
fn a_missing_token_is_an_error_and_no_panic() {
    // Token sequences that no text gives: the statement runs into the end.
    assert_eq!(
        parse_tokens(&[ident("mineral", 4)]).unwrap_err(),
        ParseError::ExpectedSpeciesName { line: 4 }
    );
    assert_eq!(
        parse_tokens(&[ident("mineral", 4), ident("a", 4)]).unwrap_err(),
        ParseError::ExpectedSpeciesColor { line: 4 }
    );
    assert_eq!(
        parse_tokens(&[ident("world", 2), number(1, 2), number(2, 2)]).unwrap_err(),
        ParseError::InvalidWorldSyntax { line: 2 }
    );
    assert_eq!(
        parse_tokens(&[ident("mineral", 1), ident("a", 1), ident("b", 1), ident("var", 9)])
            .unwrap_err(),
        ParseError::ExpectedVariableName { line: 9 }
    );
    assert_eq!(
        parse_tokens(&[ident("mineral", 1), ident("a", 1), ident("b", 1), ident("status", 9)])
            .unwrap_err(),
        ParseError::ExpectedStatusName { line: 9 }
    );
    // A bare `agent` at the very end records nothing.
    let config = parse_tokens(&[ident("agent", 1)]).unwrap();
    assert!(config.agents.is_empty());
    // Before the end of a line it records an empty placement.
    let config = parse_tokens(&[ident("agent", 1), eol(1)]).unwrap();
    assert_eq!(config.agents.len(), 1);
    assert_eq!(config.agents[0].species_pattern, "");
    assert!(config.agents[0].positions.is_empty());
}

#[test]
fn agent_statements_glue_symbol_tokens() {
    // agent ( a : b ) -3 ( 1 : 2 x ) y <eol> agent z
    let tokens = [
        ident("agent", 1),
        symbol("(", 1),
        ident("a", 1),
        symbol(":", 1),
        number(-3, 1),
        eol(1),
        ident("agent", 2),
        ident("z", 2),
        symbol("(", 2),
        number(1, 2),
        symbol(":", 2),
        number(20, 2),
        ident("x", 2),
        symbol(")", 2),
        number(7, 2),
        ident("y", 2),
        symbol("(", 2),
        number(5, 2),
        eol(2),
        ident("agent", 3),
        ident("w", 3),
        symbol("(", 3),
        Token { kind: TokenKind::Float("1.5".to_string()), line: 3 },
        ident("q", 3),
    ];
    let config = parse_tokens(&tokens).unwrap();
    assert_eq!(config.agents.len(), 3);
    assert_eq!(config.agents[0].species_pattern, "(a:-3");
    assert!(config.agents[0].positions.is_empty());
    assert_eq!(config.agents[1].species_pattern, "z");
    assert_eq!(config.agents[1].positions, vec!["(1:20x)", "y", "(5"]);
    assert_eq!(config.agents[2].species_pattern, "w");
    assert_eq!(config.agents[2].positions, vec!["(", "q"]);
}

#[test]
fn markers_inside_a_species_record_nothing() {
    let config = parse_file("vegetal tree 0F0\nsensor hot flame 1\nfield flame -1\nblock light")
        .unwrap();
    assert_eq!(config.species.len(), 1);
    let tree = &config.species[0];
    assert!(matches!(tree.kind, SpeciesKind::Vegetal));
    assert!(tree.vars.is_empty());
    assert!(tree.statuses.is_empty());
    assert!(tree.births.is_empty());
    assert!(tree.fields.is_empty());
    assert!(tree.sensors.is_empty());
}

#[test]
fn the_rest_of_a_marker_line_is_passed_over() {
    // Keywords among the operands of `sensor`, `field` and `block` start no statement.
    let config = parse_file(
        "world 2 2 FFF\nmineral a F00\nfield status 2\nsensor var world 1 2\nblock agent a (0,0) mineral\nvar x\nstatus s",
    )
    .unwrap();
    let world = config.world.unwrap();
    assert_eq!((world.cols, world.rows), (2, 2));
    assert_eq!(config.species.len(), 1);
    assert_eq!(config.species[0].name, "a");
    assert_eq!(config.species[0].vars.len(), 1);
    assert_eq!(config.species[0].vars[0].name, "x");
    assert_eq!(config.species[0].statuses.len(), 1);
    assert_eq!(config.species[0].statuses[0].new_status, "s");
    assert!(config.agents.is_empty());
    // The next line is read again.
    let error = parse_file("mineral a F00\nfield f\nworld 1").unwrap_err();
    assert_eq!(error, ParseError::InvalidWorldSyntax { line: 3 });
    // In a token sequence without end of line the marker takes all that is left.
    let config = parse_tokens(&[
        ident("mineral", 1),
        ident("a", 1),
        ident("b", 1),
        ident("sensor", 1),
        ident("status", 1),
        number(3, 1),
        ident("world", 1),
    ])
    .unwrap();
    assert_eq!(config.species.len(), 1);
    assert!(config.species[0].statuses.is_empty());
    assert!(config.world.is_none());
    // Outside a species the marker is still an error.
    assert_eq!(
        parse_file("field status 2").unwrap_err(),
        ParseError::OutsideSpecies { directive: Directive::Field, line: 1 }
    );
}

#[test]
fn token_lines_are_source_lines() {
    let text = "# heading\n\nworld 1 2 FFF # sizes\n   \n\t#\nmineral a b\r\n\nvar x";
    let tokens = tokenize(text).unwrap();
    let lines: Vec<usize> = tokens.iter().map(|t| t.line).collect();
    assert_eq!(lines, vec![3, 3, 3, 3, 3, 6, 6, 6, 6, 8, 8, 8]);
    assert_eq!(tokens[4].kind, TokenKind::Eol);
    assert_eq!(tokens[7].kind, TokenKind::Ident("b".to_string()));
    assert_eq!(tokens[8].kind, TokenKind::Eol);
    assert_eq!(tokens[11].kind, TokenKind::Eol);
    assert!(tokenize("\n\n  \n#x\n \t ").unwrap().is_empty());
}

#[test]
fn words_are_classified_in_order() {
    let kinds = |text: &str| -> Vec<TokenKind> {
        tokenize(text).unwrap().into_iter().map(|t| t.kind).collect()
    };
    let id = |s: &str| TokenKind::Ident(s.to_string());
    let float = |s: &str| TokenKind::Float(s.to_string());
    let sym = |s: &str| TokenKind::Symbol(s.to_string());
    assert_eq!(
        kinds("0 -0 007 2147483647 -2147483648"),
        vec![
            TokenKind::Number(0),
            TokenKind::Number(0),
            TokenKind::Number(7),
            TokenKind::Number(2147483647),
            TokenKind::Number(-2147483648),
            TokenKind::Eol
        ]
    );
    // Too large for 32 bits, or not a plain integer: identifiers.
    assert_eq!(
        kinds("2147483648 -2147483649 99999999999999999999999 +5 - -- 1-2 5a"),
        vec![
            id("2147483648"),
            id("-2147483649"),
            id("99999999999999999999999"),
            id("+5"),
            id("-"),
            id("--"),
            id("1-2"),
            id("5a"),
            TokenKind::Eol
        ]
    );
    assert_eq!(
        kinds("1.5 -2.3 +0.5 1. .5 1.5e3 1.E-2 -.5e+10"),
        vec![
            float("1.5"),
            float("-2.3"),
            float("+0.5"),
            float("1."),
            float(".5"),
            float("1.5e3"),
            float("1.E-2"),
            float("-.5e+10"),
            TokenKind::Eol
        ]
    );
    // Without a point, or not a number at all: identifiers.
    assert_eq!(
        kinds(". 1e5 inf nan 1.2.3 1.5e 1.5e+ e1.5 1.5f ..5 +.e1 1,5"),
        vec![
            id("."),
            id("1e5"),
            id("inf"),
            id("nan"),
            id("1.2.3"),
            id("1.5e"),
            id("1.5e+"),
            id("e1.5"),
            id("1.5f"),
            id("..5"),
            id("+.e1"),
            id("1,5"),
            TokenKind::Eol
        ]
    );
    assert_eq!(
        kinds("< > : << :: <= ( )"),
        vec![sym("<"), sym(">"), sym(":"), id("<<"), id("::"), id("<="), id("("), id(")"), TokenKind::Eol]
    );
}

#[test]
fn white_space_of_every_kind_separates_words() {
    let text = "a\u{00A0}b\u{3000}c\u{2003}d\u{000B}e\u{0085}f\u{200B}g";
    let tokens = tokenize(text).unwrap();
    let kinds: Vec<TokenKind> = tokens.into_iter().map(|t| t.kind).collect();
    let id = |s: &str| TokenKind::Ident(s.to_string());
    // U+200B is no white space: it stays inside the last word.
    assert_eq!(
        kinds,
        vec![id("a"), id("b"), id("c"), id("d"), id("e"), id("f\u{200B}g"), TokenKind::Eol]
    );
}

#[test]
fn a_forest_is_parsed_built_and_run() {
    let text = "\
# A forest with one fire.
world 32 16 FFF          # columns, rows, background

mineral tree 0F0
var hot
status tree hot < 2
status fire hot > 1
sensor hot flame 1

mineral fire F00
var flame 3 -1
status ash
field flame -1

mineral ash 777

agent tree (0:15,0:31)
agent fire (5,5) (8,9)
";
    let config = parse_file(text).unwrap();
    let world = config.world.as_ref().unwrap();
    assert_eq!((world.cols, world.rows), (32, 16));
    let names: Vec<&str> = config.species.iter().map(|s| s.name.as_str()).collect();
    assert_eq!(names, vec!["tree", "fire", "ash"]);
    assert_eq!(config.species[0].vars.len(), 1);
    assert_eq!(config.species[0].statuses.len(), 2);
    assert_eq!(config.species[0].statuses[0].new_status, "tree");
    assert_eq!(config.species[0].statuses[1].new_status, "fire");
    assert_eq!(config.species[1].vars[0].name, "flame");
    assert_eq!(config.species[1].statuses.len(), 1);
    assert_eq!(config.species[2].color, "309");
    assert_eq!(config.agents.len(), 2);
    assert_eq!(config.agents[0].positions, vec!["(0:15,0:31)"]);
    assert_eq!(config.agents[1].positions, vec!["(5,5)", "(8,9)"]);

    let world = create_world_from_ast(&config).unwrap();
    assert_eq!((world.rows, world.cols), (16, 32));
    assert_eq!(world.agents.len(), 16 * 32 + 2);
    assert_eq!(world.get(Position::new(5, 5)).unwrap().agent, Some(512));
    assert_eq!(world.get(Position::new(8, 9)).unwrap().agent, Some(513));
    assert_eq!(world.agents[512].color, 0xFF0000);
    assert_eq!(world.agents[512].species_id, 1);
    assert_eq!(world.agents[0].color, 0x00FF00);

    let species = create_species_from_ast(&config).unwrap();
    assert_eq!(species.len(), 3);
    assert_eq!(species[2].color, 0x330099);
    let mut engine = Engine::new(world, species);
    assert!(engine.fields.is_empty());
    for _ in 0..3 {
        // No rule gives the status `dead`: everyone stays.
        assert_eq!(engine.step(), 16 * 32 + 2);
    }
    assert_eq!(engine.world.agents.len(), 16 * 32 + 2);
}

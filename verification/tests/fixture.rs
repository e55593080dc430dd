use xaoc::fixture::{count_failed, count_passed, ExampleResult, ExampleRow};
use xaoc::verdict::{judge, FixtureError};
use xaoc::{Answer, DayData, ExampleData, ModuleDescriptor, ModuleInfo, Part, RunError};

fn parse_list(s: &str) -> Result<Vec<i32>, String> {
    s.split(',').map(|n| n.parse::<i32>().map_err(|e| e.to_string())).collect()
}

fn sum(input: &Vec<i32>) -> i32 {
    input.iter().sum()
}

fn zeros(input: &Vec<i32>) -> usize {
    input.iter().filter(|&&n| n == 0).count()
}

type Parser = fn(&str) -> Result<Vec<i32>, String>;
type Solver1 = fn(&Vec<i32>) -> i32;
type Solver2 = fn(&Vec<i32>) -> usize;
type Module = ModuleDescriptor<Vec<i32>, i32, usize, Parser, Solver1, Solver2>;

fn module(
    part1: Option<Solver1>,
    part2: Option<Solver2>,
    examples: Vec<ExampleData<i32, usize>>,
) -> Module {
    ModuleDescriptor::new(DayData::new(2021, 12), parse_list as Parser, part1, part2, examples)
}

#[test]
fn descriptor_keeps_what_it_was_given() {
    let m = module(Some(sum), None, vec![ExampleData::new("1,2", Some(3), None)]);
    assert_eq!(m.identity(), DayData::new(2021, 12));
    assert!(m.has_part(Part::One));
    assert!(!m.has_part(Part::Two));
    assert_eq!(m.info(), ModuleInfo::new(DayData::new(2021, 12), true, false));
    assert_eq!(m.examples().len(), 1);
    assert_eq!(m.examples()[0].input(), "1,2");
}

#[test]
fn descriptor_without_solvers() {
    let m = module(None, None, Vec::new());
    assert_eq!(m.info(), ModuleInfo::new(DayData::new(2021, 12), false, false));
    assert_eq!(m.run(Part::One, "1"), Err(RunError::SolverMissing));
    assert_eq!(m.run(Part::Two, "1"), Err(RunError::SolverMissing));
    assert!(m.run_examples().is_empty());
}

#[test]
fn run_gives_the_answer_of_the_part() {
    let m = module(Some(sum), Some(zeros), Vec::new());
    assert_eq!(m.run(Part::One, "1,2,3"), Ok(Answer::Part1(6)));
    assert_eq!(m.run(Part::Two, "0,5,0"), Ok(Answer::Part2(2)));
    assert_eq!(m.run(Part::One, "0,0,0,0,0"), Ok(Answer::Part1(0)));
}

#[test]
fn run_passes_a_parse_failure_on() {
    let m = module(Some(sum), None, Vec::new());
    match m.run(Part::One, "1,x,3") {
        Err(RunError::Parse { identity, reason }) => {
            assert_eq!(identity, DayData::new(2021, 12));
            assert_eq!(reason, "x".parse::<i32>().unwrap_err().to_string());
        },
        other => panic!("expected a parse failure, got {:?}", other),
    }
}

#[test]
fn run_without_the_solver_does_not_parse() {
    let m = module(Some(sum), None, Vec::new());
    assert_eq!(m.run(Part::Two, "not a list"), Err(RunError::SolverMissing));
}

#[test]
fn parse_text_and_part_outputs() {
    let m = module(Some(sum), None, Vec::new());
    let parsed = m.parse_text("4,5");
    assert_eq!(parsed, Ok(vec![4, 5]));
    assert_eq!(m.part1_output(&parsed), Some(Ok(9)));
    assert_eq!(m.part2_output(&parsed), None);
    let refused = m.parse_text("");
    assert!(refused.is_err());
    assert_eq!(m.part1_output(&refused), Some(Err(refused.clone().unwrap_err())));
}

#[test]
fn fixture_round_trip() {
    let m = module(
        Some(sum),
        None,
        vec![ExampleData::new("0,0,0,0,0", Some(0), None), ExampleData::new("1,2,3", Some(6), None)],
    );
    let results = m.run_examples();
    assert_eq!(
        results,
        vec![
            ExampleResult::Part1 { example: 0, outcome: Ok(()) },
            ExampleResult::Part1 { example: 1, outcome: Ok(()) },
        ]
    );
}

#[test]
fn fixture_run_is_exhaustive() {
    let m = module(
        Some(sum),
        None,
        vec![ExampleData::new("1,2,3", Some(7), None), ExampleData::new("1,2,3", Some(6), None)],
    );
    let results = m.run_examples();
    assert_eq!(results.len(), 2);
    assert_eq!(count_failed(&results), 1);
    assert_eq!(count_passed(&results), 1);
    assert_eq!(
        results[0],
        ExampleResult::Part1 {
            example: 0,
            outcome: Err(FixtureError::ExampleMismatch { expected: &7, actual: 6 }),
        }
    );
    assert_eq!(results[1], ExampleResult::Part1 { example: 1, outcome: Ok(()) });
}

#[test]
fn fixture_run_twice_gives_the_same_report() {
    let m = module(
        Some(sum),
        Some(zeros),
        vec![
            ExampleData::new("0,0,0,0,0", Some(0), Some(5)),
            ExampleData::new("1,2,3", Some(5), Some(0)),
            ExampleData::new("1,,3", Some(4), None),
        ],
    );
    let first = m.run_examples();
    let second = m.run_examples();
    assert_eq!(first, second);
    assert_eq!(m.examples().len(), 3);
    assert_eq!(m.info(), ModuleInfo::new(DayData::new(2021, 12), true, true));
}

#[test]
fn fixture_results_come_in_declared_order_part_one_first() {
    let m = module(
        Some(sum),
        Some(zeros),
        vec![
            ExampleData::new("0,0,0,0,0", Some(0), Some(5)),
            ExampleData::new("7", None, None),
            ExampleData::new("1,0", None, Some(3)),
            ExampleData::new("1,2,3", Some(6), None),
        ],
    );
    let results = m.run_examples();
    assert_eq!(
        results,
        vec![
            ExampleResult::Part1 { example: 0, outcome: Ok(()) },
            ExampleResult::Part2 { example: 0, outcome: Ok(()) },
            ExampleResult::Part2 {
                example: 2,
                outcome: Err(FixtureError::ExampleMismatch { expected: &3, actual: 1 }),
            },
            ExampleResult::Part1 { example: 3, outcome: Ok(()) },
        ]
    );
    assert_eq!(count_passed(&results), 3);
    assert_eq!(count_failed(&results), 1);
}

#[test]
fn fixture_expecting_a_part_without_solver_is_a_config_error() {
    let m = module(Some(sum), None, vec![ExampleData::new("0,0", Some(0), Some(2))]);
    let results = m.run_examples();
    assert_eq!(
        results,
        vec![
            ExampleResult::Part1 { example: 0, outcome: Ok(()) },
            ExampleResult::Part2 { example: 0, outcome: Err(FixtureError::ConfigError) },
        ]
    );
}

#[test]
fn fixture_config_error_is_told_from_a_mismatch() {
    let m = module(None, Some(zeros), vec![ExampleData::new("0,0", Some(0), Some(3))]);
    let results = m.run_examples();
    assert_eq!(results[0], ExampleResult::Part1 { example: 0, outcome: Err(FixtureError::ConfigError) });
    assert_eq!(
        results[1],
        ExampleResult::Part2 {
            example: 0,
            outcome: Err(FixtureError::ExampleMismatch { expected: &3, actual: 2 }),
        }
    );
    assert_ne!(results[0].passed(), true);
    assert_eq!(count_failed(&results), 2);
}

#[test]
fn fixture_with_input_that_the_parser_refuses() {
    let m = module(
        Some(sum),
        None,
        vec![ExampleData::new("1,b", Some(1), Some(0)), ExampleData::new("2", Some(2), None)],
    );
    let reason = "b".parse::<i32>().unwrap_err().to_string();
    let results = m.run_examples();
    assert_eq!(
        results,
        vec![
            ExampleResult::Part1 { example: 0, outcome: Err(FixtureError::ParseError { reason }) },
            ExampleResult::Part2 { example: 0, outcome: Err(FixtureError::ConfigError) },
            ExampleResult::Part1 { example: 1, outcome: Ok(()) },
        ]
    );
}

#[test]
fn fixture_without_examples() {
    let m = module(Some(sum), Some(zeros), Vec::new());
    let results = m.run_examples();
    assert!(results.is_empty());
    assert_eq!(count_passed(&results), 0);
    assert_eq!(count_failed(&results), 0);
}

#[test]
fn example_result_accessors() {
    let a: ExampleResult<i32, usize> = ExampleResult::Part1 { example: 4, outcome: Ok(()) };
    assert_eq!(a.example(), 4);
    assert_eq!(a.part(), Part::One);
    assert!(a.passed());
    let b: ExampleResult<i32, usize> =
        ExampleResult::Part2 { example: 9, outcome: Err(FixtureError::ConfigError) };
    assert_eq!(b.example(), 9);
    assert_eq!(b.part(), Part::Two);
    assert!(!b.passed());
}

#[test]
fn judge_passes_equal_values_and_reports_both_otherwise() {
    assert_eq!(judge(&6, 6), Ok(()));
    assert_eq!(judge(&6, 7), Err(FixtureError::ExampleMismatch { expected: &6, actual: 7 }));
    let expected = "abc".to_string();
    assert_eq!(judge(&expected, "abc".to_string()), Ok(()));
    assert_eq!(
        judge(&expected, "abd".to_string()),
        Err(FixtureError::ExampleMismatch { expected: &expected, actual: "abd".to_string() })
    );
}

#[test]
fn module_with_unit_outputs() {
    let parse = |s: &str| -> Result<String, String> { Ok(s.to_string()) };
    let m: ModuleDescriptor<String, (), (), _, fn(&String), fn(&String)> =
        ModuleDescriptor::new(DayData::new(2022, 1), parse, None, None, vec![ExampleData::new("x", None, None)]);
    assert!(m.run_examples().is_empty());
    assert_eq!(m.run(Part::One, "x"), Err(RunError::SolverMissing));
}

#[test]
fn module_with_closures() {
    let offset = 10;
    let parse = |s: &str| -> Result<u32, String> { s.trim().parse::<u32>().map_err(|e| e.to_string()) };
    let part1 = move |n: &u32| -> u32 { *n + offset };
    let part2 = |n: &u32| -> String { format!("<{}>", n) };
    let m = ModuleDescriptor::new(
        DayData::new(2020, 3),
        parse,
        Some(part1),
        Some(part2),
        vec![ExampleData::new(" 5 ", Some(15), Some("<5>".to_string()))],
    );
    assert_eq!(m.run(Part::One, "1"), Ok(Answer::Part1(11)));
    assert_eq!(m.run(Part::Two, "1"), Ok(Answer::Part2("<1>".to_string())));
    let results = m.run_examples();
    assert_eq!(count_passed(&results), 2);
}

#[test]
fn run_example_gives_the_row_of_one_example() {
    let m = module(
        Some(sum),
        Some(zeros),
        vec![ExampleData::new("1,2", Some(3), None), ExampleData::new("0", Some(1), Some(1))],
    );
    assert_eq!(m.run_example(0), Some(ExampleRow { part1: Some(Ok(())), part2: None }));
    assert_eq!(
        m.run_example(1),
        Some(ExampleRow {
            part1: Some(Err(FixtureError::ExampleMismatch { expected: &1, actual: 0 })),
            part2: Some(Ok(())),
        })
    );
    assert_eq!(m.run_example(2), None);
}

use task_tester::{
    get_tests, glob_pattern, ConfigError, DiscoveryError, FatalError, RunConfig, Test,
};

fn config(task: &str, in_pattern: &str, out_pattern: &str) -> RunConfig {
    RunConfig {
        task: task.to_string(),
        command: None,
        in_pattern: in_pattern.to_string(),
        out_pattern: out_pattern.to_string(),
        timeout: 5,
        parallel: 5,
    }
}

fn default_config(task: &str) -> RunConfig {
    config(task, "in/{task}{test}.in", "out/{task}{test}.out")
}

fn listing(paths: &[&str]) -> Vec<String> {
    paths.iter().map(|p| p.to_string()).collect()
}

fn triple(t: &Test) -> (String, String, String) {
    (t.name.clone(), t.in_file.clone(), t.out_file.clone())
}

fn owned(name: &str, in_file: &str, out_file: &str) -> (String, String, String) {
    (name.to_string(), in_file.to_string(), out_file.to_string())
}

#[test]
fn glob_pattern_of_the_default_pattern() {
    assert_eq!(glob_pattern(&default_config("sum")), Ok("in/sum*.in".to_string()));
}

#[test]
fn glob_pattern_fills_every_slot() {
    let c = config("ab", "{task}/in/{task}{test}-{test}.txt", "unused");
    assert_eq!(glob_pattern(&c), Ok("ab/in/ab*-*.txt".to_string()));
}

#[test]
fn glob_pattern_without_test_slot_is_a_config_error() {
    let c = config("sum", "in/{task}.in", "out/{task}{test}.out");
    assert_eq!(glob_pattern(&c), Err(ConfigError::MissingTestSlot));
    let c = config("sum", "", "out/{task}{test}.out");
    assert_eq!(glob_pattern(&c), Err(ConfigError::MissingTestSlot));
    let c = config("sum", "in/{task}{TEST}.in", "out/{task}{test}.out");
    assert_eq!(glob_pattern(&c), Err(ConfigError::MissingTestSlot));
}

#[test]
fn discovery_without_test_slot_is_a_config_error() {
    let c = config("sum", "in/{task}.in", "out/{task}{test}.out");
    let err = FatalError::Config(ConfigError::MissingTestSlot);
    assert_eq!(get_tests(&c, &listing(&[])).err(), Some(err));
    assert_eq!(get_tests(&c, &listing(&["in/sum.in"])).err(), Some(err));
    assert_eq!(get_tests(&c, &listing(&["in/sum01.in", "x"])).err(), Some(err));
}

#[test]
fn discovery_reads_the_id_between_head_and_tail() {
    let c = default_config("sum");
    let tests = get_tests(&c, &listing(&["in/sum01.in"])).unwrap();
    assert_eq!(tests.len(), 1);
    assert_eq!(triple(&tests[0]), owned("01", "in/sum01.in", "out/sum01.out"));
}

#[test]
fn discovery_takes_ids_of_any_length() {
    let c = default_config("sumA");
    let paths = listing(&["in/sumA03.in", "in/sumA.in", "in/sumA1.in", "in/sumAlong-id.x.in"]);
    let tests = get_tests(&c, &paths).unwrap();
    let got: Vec<_> = tests.iter().map(triple).collect();
    assert_eq!(
        got,
        vec![
            owned("03", "in/sumA03.in", "out/sumA03.out"),
            owned("", "in/sumA.in", "out/sumA.out"),
            owned("1", "in/sumA1.in", "out/sumA1.out"),
            owned("long-id.x", "in/sumAlong-id.x.in", "out/sumAlong-id.x.out"),
        ]
    );
}

#[test]
fn discovery_keeps_the_order_of_the_listing() {
    let c = default_config("t");
    let paths = listing(&["in/t3.in", "in/t1.in", "in/t2.in"]);
    let tests = get_tests(&c, &paths).unwrap();
    let names: Vec<_> = tests.iter().map(|t| t.name.as_str()).collect();
    assert_eq!(names, vec!["3", "1", "2"]);
}

#[test]
fn discovery_of_an_empty_listing_is_empty() {
    let tests = get_tests(&default_config("sum"), &listing(&[])).unwrap();
    assert!(tests.is_empty());
}

#[test]
fn discovery_gives_distinct_ids_for_distinct_files() {
    let c = default_config("sum");
    let paths: Vec<String> = (0..40).map(|i| format!("in/sum{:02}.in", i)).collect();
    let tests = get_tests(&c, &paths).unwrap();
    assert_eq!(tests.len(), 40);
    let mut names: Vec<_> = tests.iter().map(|t| t.name.clone()).collect();
    names.sort();
    names.dedup();
    assert_eq!(names.len(), 40);
}

#[test]
fn discovery_with_the_slot_at_an_end() {
    let c = config("p", "{test}.in", "{test}");
    let tests = get_tests(&c, &listing(&["abc.in"])).unwrap();
    assert_eq!(triple(&tests[0]), owned("abc", "abc.in", "abc"));
    let c = config("p", "in.{test}", "{task}-{test}-{task}");
    let tests = get_tests(&c, &listing(&["in.7"])).unwrap();
    assert_eq!(triple(&tests[0]), owned("7", "in.7", "p-7-p"));
}

#[test]
fn discovery_goes_by_the_offset_of_the_first_slot() {
    // With two slots the text after the first one counts as tail, six
    // characters for the second slot included.
    let c = config("p", "{test}_{test}.in", "{test}.out");
    let tests = get_tests(&c, &listing(&["ab_ab.in-----"])).unwrap();
    assert_eq!(tests[0].name, "ab_");
    assert_eq!(tests[0].out_file, "ab_.out");
}

#[test]
fn discovery_counts_characters() {
    let c = config("\u{e9}t\u{e9}", "in/{task}{test}.in", "out/{task}{test}.out");
    let tests = get_tests(&c, &listing(&["in/\u{e9}t\u{e9}\u{4e2d}1.in"])).unwrap();
    assert_eq!(
        triple(&tests[0]),
        owned("\u{4e2d}1", "in/\u{e9}t\u{e9}\u{4e2d}1.in", "out/\u{e9}t\u{e9}\u{4e2d}1.out")
    );
}

#[test]
fn discovery_fills_the_task_before_the_test() {
    // A task name that holds the test slot is itself filled with the id.
    let c = config("{test}", "in/{task}.in", "out/{task}.out");
    assert_eq!(glob_pattern(&c), Ok("in/*.in".to_string()));
    let tests = get_tests(&c, &listing(&["in/9.in"])).unwrap();
    assert_eq!(triple(&tests[0]), owned("9", "in/9.in", "out/9.out"));
}

#[test]
fn discovery_refuses_a_path_that_is_too_short() {
    let c = default_config("sum");
    let err = |index| Some(FatalError::Discovery(DiscoveryError::PathTooShort { index }));
    assert_eq!(get_tests(&c, &listing(&["in/sum.i"])).err(), err(0));
    assert_eq!(get_tests(&c, &listing(&[""])).err(), err(0));
    assert_eq!(get_tests(&c, &listing(&["in/sum1.in", "x.in", "y"])).err(), err(1));
    assert_eq!(get_tests(&c, &listing(&["in/sum1.in", "in/sum2.in", "sum.in"])).err(), err(2));
}

#[test]
fn discovery_takes_a_path_of_just_head_and_tail() {
    let c = default_config("sum");
    let tests = get_tests(&c, &listing(&["in/sum.in"])).unwrap();
    assert_eq!(triple(&tests[0]), owned("", "in/sum.in", "out/sum.out"));
}

#[test]
fn discovery_goes_by_offsets_alone() {
    // A path that a wildcard in the task name has matched is cut at the
    // same offsets, whatever stands before and after them.
    let c = default_config("su?");
    assert_eq!(glob_pattern(&c), Ok("in/su?*.in".to_string()));
    let tests = get_tests(&c, &listing(&["in/sum01.in"])).unwrap();
    assert_eq!(triple(&tests[0]), owned("01", "in/sum01.in", "out/su?01.out"));
}

#[test]
fn slot_texts() {
    assert_eq!(task_tester::config::task_slot_text(), "{task}");
    assert_eq!(task_tester::config::test_slot_text(), "{test}");
}

#[test]
fn default_patterns_list_and_pair_files() {
    let c = RunConfig::new("sum".to_string());
    assert_eq!(glob_pattern(&c), Ok("in/sum*.in".to_string()));
    let tests = get_tests(&c, &listing(&["in/sum10.in"])).unwrap();
    assert_eq!(triple(&tests[0]), owned("10", "in/sum10.in", "out/sum10.out"));
}

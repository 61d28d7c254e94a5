use pgrust_nextest_repro::run_cpu_test;
use pgrust_nextest_repro::suite::{suite_source, CPU_TESTS, DATABASE_TESTS};

fn test_names() -> Vec<String> {
    let source = suite_source();
    let lines: Vec<&str> = source.lines().collect();
    let mut names = Vec::new();
    for pair in lines.chunks(2) {
        assert_eq!(pair[0], "#[test]");
        let rest = pair[1].strip_prefix("fn ").unwrap();
        names.push(rest[..rest.find('(').unwrap()].to_string());
    }
    names
}

#[test]
fn suite_has_the_promised_size() {
    assert_eq!((DATABASE_TESTS, CPU_TESTS), (1_600, 4_400));
    let names = test_names();
    assert_eq!(names.len(), 6_000);
    let count = |prefix: &str| names.iter().filter(|name| name.starts_with(prefix)).count();
    assert_eq!(count("database_"), 1_600);
    assert_eq!(count("database_isolated_"), 134);
    assert_eq!(count("database_reusable_"), 1_466);
    assert_eq!(count("cpu_"), 4_400);
}

#[test]
fn one_in_ten_sample_keeps_the_mix() {
    let sample: Vec<String> =
        test_names().into_iter().filter(|name| name.ends_with('0')).collect();
    assert_eq!(sample.len(), 600);
    assert_eq!(sample.iter().filter(|name| name.starts_with("database_")).count(), 160);
    assert_eq!(sample.iter().filter(|name| name.starts_with("cpu_")).count(), 440);
}

#[test]
fn test_names_differ() {
    let mut names = test_names();
    names.sort();
    names.dedup();
    assert_eq!(names.len(), 6_000);
}

#[test]
fn suite_is_spelled_out() {
    let mut expected = String::new();
    for index in 0..1_600 {
        let kind = if index % 12 == 0 { "isolated" } else { "reusable" };
        expected += &format!(
            "#[test]\nfn database_{kind}_{index:04}() {{ crate::run_database_test({index}); }}\n"
        );
    }
    for index in 0..4_400 {
        expected +=
            &format!("#[test]\nfn cpu_{index:04}() {{ crate::run_cpu_test({index}); }}\n");
    }
    assert_eq!(suite_source(), expected);
}

#[test]
fn cpu_test_arrives_at_its_state() {
    assert_eq!(run_cpu_test(0), 0x39b8_c099_aa39_786d);
    assert_eq!(run_cpu_test(1), 0x4a25_f10f_9e0c_df37);
    assert_eq!(run_cpu_test(4399), 0x4816_cf59_6972_13ea);
}

#[test]
fn cpu_states_differ() {
    let mut states: Vec<u64> = (0..200).map(run_cpu_test).collect();
    states.sort();
    states.dedup();
    assert_eq!(states.len(), 200);
    assert!(!states.contains(&0));
}

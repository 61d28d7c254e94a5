use pgrust_nextest_repro::ident::quote_ident;
use pgrust_nextest_repro::names::{
    ephemeral_name, isolated_name, leased_name, lock_key, row_id, seed_name, warmup_name,
    TEMPLATE_DB,
};

#[test]
fn identifiers_are_quoted() {
    assert_eq!(quote_ident("repro_db_seed_000"), "\"repro_db_seed_000\"");
    assert_eq!(quote_ident(""), "\"\"");
    assert_eq!(quote_ident("a\"b"), "\"a\"\"b\"");
    assert_eq!(quote_ident("\"\""), "\"\"\"\"\"\"");
    assert_eq!(quote_ident("x\"; DROP DATABASE y; --"), "\"x\"\"; DROP DATABASE y; --\"");
    assert_eq!(quote_ident("\u{e4}\u{1f600}"), "\"\u{e4}\u{1f600}\"");
}

#[test]
fn names_are_spelled_out() {
    assert_eq!(TEMPLATE_DB, "repro_template");
    assert_eq!(seed_name(0), "repro_db_seed_000");
    assert_eq!(seed_name(95), "repro_db_seed_095");
    assert_eq!(seed_name(1000), "repro_db_seed_1000");
    assert_eq!(leased_name(7, 4242), "repro_db_t7_4242");
    assert_eq!(isolated_name(4242, 12), "repro_isolated_4242_12");
    assert_eq!(ephemeral_name(4242, 12), "tdb_repro_template__4242_12");
    assert_eq!(warmup_name(), "tdb_repro_template__warmup");
}

#[test]
fn names_of_two_tests_differ() {
    assert_ne!(leased_name(1, 23), leased_name(12, 3));
    assert_ne!(isolated_name(1, 23), isolated_name(12, 3));
    assert_ne!(ephemeral_name(1, 23), ephemeral_name(12, 3));
    assert_ne!(seed_name(1), seed_name(10));
}

#[test]
fn longest_names_fit_the_server() {
    for name in [
        seed_name(usize::MAX),
        leased_name(usize::MAX, u32::MAX),
        isolated_name(u32::MAX, usize::MAX),
        ephemeral_name(u32::MAX, usize::MAX),
    ] {
        assert!(name.len() <= 63, "{name}");
    }
}

#[test]
fn lock_keys_lie_above_the_suite_mark() {
    assert_eq!(lock_key(0), 0x5250_524f_0000_0000);
    assert_eq!(lock_key(16_384), 0x5250_524f_0000_4000);
    assert_eq!(lock_key(0xffff_ffff), 0x5250_524f_ffff_ffff);
}

#[test]
fn rows_hold_process_and_test() {
    assert_eq!(row_id(0, 0), 0);
    assert_eq!(row_id(1, 2), 0x1_0000_0002);
    assert_eq!(row_id(4242, 1599), (4242 << 32) + 1599);
    assert_eq!(row_id(0x8000_0000, 0), i64::MIN);
}

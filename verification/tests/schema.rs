use pgrust_nextest_repro::schema::{schema_sql, SEEDED_TABLES, SEED_ROWS, SEQUENCES, TABLES};

#[test]
fn schema_has_the_promised_size() {
    assert_eq!((TABLES, SEEDED_TABLES, SEQUENCES, SEED_ROWS), (200, 8, 50, 4));
    let sql = schema_sql();
    assert_eq!(sql.matches("CREATE TABLE public.bench_table_").count(), 200);
    assert_eq!(sql.matches("CREATE TABLE benchmark_baseline.").count(), 8);
    assert_eq!(sql.matches("GENERATED ALWAYS AS IDENTITY").count(), 50);
    assert_eq!(sql.matches("DELETE FROM public.bench_table_").count(), 200);
    assert_eq!(sql.matches("OVERRIDING SYSTEM VALUE").count(), 8);
    assert_eq!(sql.matches("PERFORM setval(").count(), 50);
}

#[test]
fn schema_is_spelled_out() {
    let mut expected = String::from(
        "CREATE SCHEMA benchmark_baseline;\n\
         CREATE TABLE public.bench_scratch(id bigint PRIMARY KEY, payload text NOT NULL);\n",
    );
    for table in 0..200 {
        let key = if table < 50 {
            "id bigint GENERATED ALWAYS AS IDENTITY PRIMARY KEY"
        } else {
            "id bigint PRIMARY KEY"
        };
        expected += &format!(
            "CREATE TABLE public.bench_table_{table:03}({key}, payload text NOT NULL);\n"
        );
        if table < 8 {
            expected += &format!(
                "INSERT INTO public.bench_table_{table:03}(payload) SELECT md5(g::text) FROM generate_series(1, 4) g;\n\
                 CREATE TABLE benchmark_baseline.bench_table_{table:03} AS TABLE public.bench_table_{table:03};\n"
            );
        }
    }
    expected += "CREATE OR REPLACE PROCEDURE benchmark_baseline.restore() LANGUAGE plpgsql AS $body$ BEGIN\n\
                 PERFORM set_config('session_replication_role', 'replica', true);\n\
                 DELETE FROM public.bench_scratch;\n";
    for table in 0..200 {
        expected += &format!("DELETE FROM public.bench_table_{table:03};\n");
    }
    for table in 0..8 {
        expected += &format!(
            "INSERT INTO public.bench_table_{table:03}(id, payload) OVERRIDING SYSTEM VALUE SELECT id, payload FROM benchmark_baseline.bench_table_{table:03};\n"
        );
    }
    for table in 0..50 {
        let (value, called) = if table < 8 { (4, true) } else { (1, false) };
        expected += &format!(
            "PERFORM setval('public.bench_table_{table:03}_id_seq'::regclass, {value}, {called});\n"
        );
    }
    expected +=
        "PERFORM set_config('session_replication_role', 'origin', true);\nEND $body$;\n";
    assert_eq!(schema_sql(), expected);
}

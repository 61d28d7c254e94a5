//! The template's schema: its tables, the baseline copies of the seeded ones,
//! and the procedure that brings a database back to that baseline.
use vstd::prelude::*;
use vstd::string::*;

use crate::text;

verus! {

/// Numbered tables in the template.
pub const TABLES: usize = 200;

/// Numbered tables that hold rows and have a baseline copy: the first ones.
pub const SEEDED_TABLES: usize = 8;

/// Numbered tables whose rows are numbered by a sequence: the first ones.
pub const SEQUENCES: usize = 50;

/// Rows in each seeded table, numbered from one.
pub const SEED_ROWS: usize = 4;

/// A statement of the restore procedure.
pub enum Step {
    /// Turns the triggers off.
    TriggersOff,
    /// Empties the table that tests write their rows to.
    EmptyScratch,
    /// Empties a numbered table.
    EmptyTable { table: int },
    /// Fills a numbered table from its baseline copy.
    RefillTable { table: int },
    /// Sets a table's sequence: to its last number where `called`, else to its
    /// next.
    ResetSequence { table: int, value: nat, called: bool },
    /// Turns the triggers on again.
    TriggersOn,
}

/// A statement of the schema.
pub enum Line {
    /// Creates the schema of the baseline copies.
    CreateBaseline,
    /// Creates the table that tests write their rows to.
    CreateScratch,
    /// Creates a numbered table, with or without a sequence.
    CreateTable { table: int, sequence: bool },
    /// Writes a number of rows to a numbered table.
    SeedTable { table: int, rows: nat },
    /// Creates the baseline copy of a numbered table.
    CopyTable { table: int },
    /// Creates the restore procedure.
    DefineRestore { steps: Seq<Step> },
}

/// The name of a numbered table, without its schema.
pub open spec fn table_name(table: int) -> Seq<char> {
    "bench_table_"@ + text::padded(table as nat, 3)
}

impl Step {
    /// The statement's text.
    pub open spec fn written(self) -> Seq<char> {
        match self {
            Step::TriggersOff =>
                "PERFORM set_config('session_replication_role', 'replica', true);\n"@,
            Step::EmptyScratch => "DELETE FROM public.bench_scratch;\n"@,
            Step::EmptyTable { table } => "DELETE FROM public."@ + table_name(table) + ";\n"@,
            Step::RefillTable { table } => "INSERT INTO public."@ + table_name(table)
                + "(id, payload) OVERRIDING SYSTEM VALUE SELECT id, payload FROM benchmark_baseline."@
                + table_name(table) + ";\n"@,
            Step::ResetSequence { table, value, called } => "PERFORM setval('public."@ + table_name(
                table,
            ) + "_id_seq'::regclass, "@ + text::decimal(value) + (if called {
                ", true);\n"@
            } else {
                ", false);\n"@
            }),
            Step::TriggersOn =>
                "PERFORM set_config('session_replication_role', 'origin', true);\n"@,
        }
    }
}

/// The text of statements, one behind the other.
pub open spec fn steps_text(steps: Seq<Step>) -> Seq<char>
    decreases steps.len(),
{
    if steps.len() == 0 {
        seq![]
    } else {
        steps_text(steps.drop_last()) + steps.last().written()
    }
}

impl Line {
    /// The statement's text.
    pub open spec fn written(self) -> Seq<char> {
        match self {
            Line::CreateBaseline => "CREATE SCHEMA benchmark_baseline;\n"@,
            Line::CreateScratch =>
                "CREATE TABLE public.bench_scratch(id bigint PRIMARY KEY, payload text NOT NULL);\n"@,
            Line::CreateTable { table, sequence } => "CREATE TABLE public."@ + table_name(table) + (
            if sequence {
                "(id bigint GENERATED ALWAYS AS IDENTITY PRIMARY KEY, payload text NOT NULL);\n"@
            } else {
                "(id bigint PRIMARY KEY, payload text NOT NULL);\n"@
            }),
            Line::SeedTable { table, rows } => "INSERT INTO public."@ + table_name(table)
                + "(payload) SELECT md5(g::text) FROM generate_series(1, "@ + text::decimal(rows)
                + ") g;\n"@,
            Line::CopyTable { table } => "CREATE TABLE benchmark_baseline."@ + table_name(table)
                + " AS TABLE public."@ + table_name(table) + ";\n"@,
            Line::DefineRestore { steps } =>
                "CREATE OR REPLACE PROCEDURE benchmark_baseline.restore() LANGUAGE plpgsql AS $body$ BEGIN\n"@
                + steps_text(steps) + "END $body$;\n"@,
        }
    }
}

/// The text of statements, one behind the other.
pub open spec fn lines_text(lines: Seq<Line>) -> Seq<char>
    decreases lines.len(),
{
    if lines.len() == 0 {
        seq![]
    } else {
        lines_text(lines.drop_last()) + lines.last().written()
    }
}

/// Empties the first numbered tables.
pub open spec fn empty_tables(tables: nat) -> Seq<Step>
    decreases tables,
{
    if tables == 0 {
        seq![]
    } else {
        empty_tables((tables - 1) as nat).push(Step::EmptyTable { table: tables - 1 })
    }
}

/// Fills the first numbered tables from their baseline copies.
pub open spec fn refill_tables(tables: nat) -> Seq<Step>
    decreases tables,
{
    if tables == 0 {
        seq![]
    } else {
        refill_tables((tables - 1) as nat).push(Step::RefillTable { table: tables - 1 })
    }
}

/// Sets a table's sequence to where the template left it: behind the seed rows
/// of a seeded table, and at its start in any other.
pub open spec fn reset_sequence(table: int) -> Step {
    if table < SEEDED_TABLES {
        Step::ResetSequence { table, value: SEED_ROWS as nat, called: true }
    } else {
        Step::ResetSequence { table, value: 1, called: false }
    }
}

/// Sets the sequences of the first numbered tables.
pub open spec fn reset_sequences(tables: nat) -> Seq<Step>
    decreases tables,
{
    if tables == 0 {
        seq![]
    } else {
        reset_sequences((tables - 1) as nat).push(reset_sequence(tables - 1))
    }
}

/// What the restore procedure does before it comes to the numbered tables.
pub open spec fn first_steps() -> Seq<Step> {
    seq![Step::TriggersOff].push(Step::EmptyScratch)
}

/// What the restore procedure does.
pub open spec fn restore_steps() -> Seq<Step> {
    (first_steps() + empty_tables(TABLES as nat) + refill_tables(SEEDED_TABLES as nat)
        + reset_sequences(SEQUENCES as nat)).push(Step::TriggersOn)
}

/// What the schema says of a numbered table outside the procedure.
pub open spec fn define_table(table: int) -> Seq<Line> {
    let create = seq![Line::CreateTable { table, sequence: table < SEQUENCES }];
    if table < SEEDED_TABLES {
        create.push(Line::SeedTable { table, rows: SEED_ROWS as nat }).push(
            Line::CopyTable { table },
        )
    } else {
        create
    }
}

/// What the schema says of the first numbered tables.
pub open spec fn define_tables(tables: nat) -> Seq<Line>
    decreases tables,
{
    if tables == 0 {
        seq![]
    } else {
        define_tables((tables - 1) as nat) + define_table(tables - 1)
    }
}

/// What the schema says before it comes to the numbered tables.
pub open spec fn first_lines() -> Seq<Line> {
    seq![Line::CreateBaseline].push(Line::CreateScratch)
}

/// The statements of the schema.
pub open spec fn schema_lines() -> Seq<Line> {
    (first_lines() + define_tables(TABLES as nat)).push(
        Line::DefineRestore { steps: restore_steps() },
    )
}

/// The whole schema.
pub open spec fn schema() -> Seq<char> {
    lines_text(schema_lines())
}

pub broadcast proof fn lemma_steps_push(steps: Seq<Step>, step: Step)
    ensures
        #[trigger] steps_text(steps.push(step)) == steps_text(steps) + step.written(),
{
    assert(steps.push(step).drop_last() =~= steps);
}

pub broadcast proof fn lemma_lines_push(lines: Seq<Line>, line: Line)
    ensures
        #[trigger] lines_text(lines.push(line)) == lines_text(lines) + line.written(),
{
    assert(lines.push(line).drop_last() =~= lines);
}

/// Appends the name of a numbered table.
pub fn push_table_name(out: &mut String, table: usize)
    ensures
        final(out)@ == old(out)@ + table_name(table as int),
{
    out.append("bench_table_");
    text::push_padded(out, table as u64, 3);
    assert(out@ =~= old(out)@ + table_name(table as int));
}

/// Appends what the schema says of a numbered table, behind `before`.
fn push_definition(out: &mut String, table: usize, Ghost(before): Ghost<Seq<Line>>)
    requires
        old(out)@ == lines_text(before),
    ensures
        final(out)@ == lines_text(before + define_table(table as int)),
{
    broadcast use lemma_lines_push;

    let ghost create = Line::CreateTable { table: table as int, sequence: table < SEQUENCES };
    let ghost seed = Line::SeedTable { table: table as int, rows: SEED_ROWS as nat };
    let ghost copy = Line::CopyTable { table: table as int };
    out.append("CREATE TABLE public.");
    push_table_name(out, table);
    if table < SEQUENCES {
        out.append(
            "(id bigint GENERATED ALWAYS AS IDENTITY PRIMARY KEY, payload text NOT NULL);\n",
        );
    } else {
        out.append("(id bigint PRIMARY KEY, payload text NOT NULL);\n");
    }
    assert(out@ =~= lines_text(before) + create.written());
    if table < SEEDED_TABLES {
        let ghost created = out@;
        out.append("INSERT INTO public.");
        push_table_name(out, table);
        out.append("(payload) SELECT md5(g::text) FROM generate_series(1, ");
        text::push_decimal(out, SEED_ROWS as u64);
        out.append(") g;\n");
        assert(out@ =~= created + seed.written());
        let ghost seeded = out@;
        out.append("CREATE TABLE benchmark_baseline.");
        push_table_name(out, table);
        out.append(" AS TABLE public.");
        push_table_name(out, table);
        out.append(";\n");
        assert(out@ =~= seeded + copy.written());
        assert(before + define_table(table as int) =~= before.push(create).push(seed).push(copy));
    } else {
        assert(before + define_table(table as int) =~= before.push(create));
    }
}

/// Appends the emptying of a numbered table.
fn push_empty(out: &mut String, table: usize)
    ensures
        final(out)@ == old(out)@ + (Step::EmptyTable { table: table as int }).written(),
{
    out.append("DELETE FROM public.");
    push_table_name(out, table);
    out.append(";\n");
    assert(out@ =~= old(out)@ + (Step::EmptyTable { table: table as int }).written());
}

/// Appends the filling of a numbered table from its baseline copy.
fn push_refill(out: &mut String, table: usize)
    ensures
        final(out)@ == old(out)@ + (Step::RefillTable { table: table as int }).written(),
{
    out.append("INSERT INTO public.");
    push_table_name(out, table);
    out.append(
        "(id, payload) OVERRIDING SYSTEM VALUE SELECT id, payload FROM benchmark_baseline.",
    );
    push_table_name(out, table);
    out.append(";\n");
    assert(out@ =~= old(out)@ + (Step::RefillTable { table: table as int }).written());
}

/// Appends the setting of a table's sequence.
fn push_reset(out: &mut String, table: usize)
    ensures
        final(out)@ == old(out)@ + reset_sequence(table as int).written(),
{
    out.append("PERFORM setval('public.");
    push_table_name(out, table);
    out.append("_id_seq'::regclass, ");
    if table < SEEDED_TABLES {
        text::push_decimal(out, SEED_ROWS as u64);
        out.append(", true);\n");
    } else {
        text::push_decimal(out, 1);
        out.append(", false);\n");
    }
    assert(out@ =~= old(out)@ + reset_sequence(table as int).written());
}

/// The statements that make an empty database the template.
pub fn schema_sql() -> (sql: String)
    ensures
        sql@ == schema(),
{
    broadcast use {lemma_lines_push, lemma_steps_push};

    let mut sql = "CREATE SCHEMA benchmark_baseline;\n".to_owned();
    sql.append("CREATE TABLE public.bench_scratch(id bigint PRIMARY KEY, payload text NOT NULL);\n");
    assert(lines_text(seq![]) == Seq::<char>::empty());
    assert(sql@ =~= lines_text(first_lines()));
    assert(first_lines() + define_tables(0) =~= first_lines());
    let mut table: usize = 0;
    while table < TABLES
        invariant
            table <= TABLES,
            sql@ == lines_text(first_lines() + define_tables(table as nat)),
        decreases TABLES - table,
    {
        let ghost before = first_lines() + define_tables(table as nat);
        push_definition(&mut sql, table, Ghost(before));
        table = table + 1;
        assert(first_lines() + define_tables(table as nat) =~= before + define_table(table - 1));
    }
    let ghost defined = first_lines() + define_tables(TABLES as nat);
    sql.append(
        "CREATE OR REPLACE PROCEDURE benchmark_baseline.restore() LANGUAGE plpgsql AS $body$ BEGIN\n",
    );
    let ghost head = sql@;
    sql.append("PERFORM set_config('session_replication_role', 'replica', true);\n");
    sql.append("DELETE FROM public.bench_scratch;\n");
    assert(steps_text(seq![]) == Seq::<char>::empty());
    assert(sql@ =~= head + steps_text(first_steps()));
    let ghost first = first_steps();
    assert(first + empty_tables(0) =~= first);
    table = 0;
    while table < TABLES
        invariant
            table <= TABLES,
            sql@ == head + steps_text(first + empty_tables(table as nat)),
        decreases TABLES - table,
    {
        broadcast use lemma_steps_push;

        let ghost before = first + empty_tables(table as nat);
        push_empty(&mut sql, table);
        table = table + 1;
        assert(first + empty_tables(table as nat) =~= before.push(
            Step::EmptyTable { table: table - 1 },
        ));
        assert(sql@ =~= head + steps_text(first + empty_tables(table as nat)));
    }
    let ghost second = first + empty_tables(TABLES as nat);
    assert(second + refill_tables(0) =~= second);
    table = 0;
    while table < SEEDED_TABLES
        invariant
            table <= SEEDED_TABLES,
            sql@ == head + steps_text(second + refill_tables(table as nat)),
        decreases SEEDED_TABLES - table,
    {
        broadcast use lemma_steps_push;

        let ghost before = second + refill_tables(table as nat);
        push_refill(&mut sql, table);
        table = table + 1;
        assert(second + refill_tables(table as nat) =~= before.push(
            Step::RefillTable { table: table - 1 },
        ));
        assert(sql@ =~= head + steps_text(second + refill_tables(table as nat)));
    }
    let ghost third = second + refill_tables(SEEDED_TABLES as nat);
    assert(third + reset_sequences(0) =~= third);
    table = 0;
    while table < SEQUENCES
        invariant
            table <= SEQUENCES,
            sql@ == head + steps_text(third + reset_sequences(table as nat)),
        decreases SEQUENCES - table,
    {
        broadcast use lemma_steps_push;

        let ghost before = third + reset_sequences(table as nat);
        push_reset(&mut sql, table);
        table = table + 1;
        assert(third + reset_sequences(table as nat) =~= before.push(reset_sequence(table - 1)));
        assert(sql@ =~= head + steps_text(third + reset_sequences(table as nat)));
    }
    sql.append("PERFORM set_config('session_replication_role', 'origin', true);\n");
    assert(sql@ =~= head + steps_text(restore_steps()));
    sql.append("END $body$;\n");
    assert(sql@ =~= lines_text(defined) + (Line::DefineRestore {
        steps: restore_steps(),
    }).written());
    sql
}

/// Two tables never share a name, and every seeded table numbers its rows by a
/// sequence.
pub proof fn law_tables_distinct(a: int, b: int)
    requires
        0 <= a < TABLES,
        0 <= b < TABLES,
    ensures
        table_name(a) == table_name(b) ==> a == b,
        SEEDED_TABLES <= SEQUENCES <= TABLES,
{
    text::law_padded_reads_back(a as nat, 3);
    text::law_padded_reads_back(b as nat, 3);
    let n = "bench_table_"@.len() as int;
    assert(table_name(a).skip(n) =~= text::padded(a as nat, 3));
    assert(table_name(b).skip(n) =~= text::padded(b as nat, 3));
}

/// How large the template is.
pub proof fn law_template_size()
    ensures
        TABLES == 200,
        SEEDED_TABLES == 8,
        SEQUENCES == 50,
        SEED_ROWS == 4,
{
}

/// What the statements of the schema say of a table.
pub proof fn law_lines_say(table: int, rows: nat, steps: Seq<Step>)
    ensures
        ({
            let name = "bench_table_"@ + text::padded(table as nat, 3);
            &&& Line::CreateBaseline.written() == "CREATE SCHEMA benchmark_baseline;\n"@
            &&& Line::CreateScratch.written()
                == "CREATE TABLE public.bench_scratch(id bigint PRIMARY KEY, payload text NOT NULL);\n"@
            &&& (Line::CreateTable { table, sequence: true }).written() == "CREATE TABLE public."@
                + name
                + "(id bigint GENERATED ALWAYS AS IDENTITY PRIMARY KEY, payload text NOT NULL);\n"@
            &&& (Line::CreateTable { table, sequence: false }).written() == "CREATE TABLE public."@
                + name + "(id bigint PRIMARY KEY, payload text NOT NULL);\n"@
            &&& (Line::SeedTable { table, rows }).written() == "INSERT INTO public."@ + name
                + "(payload) SELECT md5(g::text) FROM generate_series(1, "@ + text::decimal(rows)
                + ") g;\n"@
            &&& (Line::CopyTable { table }).written() == "CREATE TABLE benchmark_baseline."@ + name
                + " AS TABLE public."@ + name + ";\n"@
            &&& (Line::DefineRestore { steps }).written()
                == "CREATE OR REPLACE PROCEDURE benchmark_baseline.restore() LANGUAGE plpgsql AS $body$ BEGIN\n"@
                + steps_text(steps) + "END $body$;\n"@
        }),
{
}

/// What the statements of the restore procedure say of a table.
pub proof fn law_steps_say(table: int, value: nat)
    ensures
        ({
            let name = "bench_table_"@ + text::padded(table as nat, 3);
            &&& Step::TriggersOff.written()
                == "PERFORM set_config('session_replication_role', 'replica', true);\n"@
            &&& Step::EmptyScratch.written() == "DELETE FROM public.bench_scratch;\n"@
            &&& (Step::EmptyTable { table }).written() == "DELETE FROM public."@ + name + ";\n"@
            &&& (Step::RefillTable { table }).written() == "INSERT INTO public."@ + name
                + "(id, payload) OVERRIDING SYSTEM VALUE SELECT id, payload FROM benchmark_baseline."@
                + name + ";\n"@
            &&& (Step::ResetSequence { table, value, called: true }).written()
                == "PERFORM setval('public."@ + name + "_id_seq'::regclass, "@ + text::decimal(
                value,
            ) + ", true);\n"@
            &&& (Step::ResetSequence { table, value, called: false }).written()
                == "PERFORM setval('public."@ + name + "_id_seq'::regclass, "@ + text::decimal(
                value,
            ) + ", false);\n"@
            &&& Step::TriggersOn.written()
                == "PERFORM set_config('session_replication_role', 'origin', true);\n"@
        }),
{
}

/// Statements stand one behind the other, each once and with nothing in between.
pub proof fn law_texts_in_order(steps: Seq<Step>, step: Step, lines: Seq<Line>, line: Line)
    ensures
        steps_text(Seq::<Step>::empty()) == Seq::<char>::empty(),
        steps_text(steps.push(step)) == steps_text(steps) + step.written(),
        lines_text(Seq::<Line>::empty()) == Seq::<char>::empty(),
        lines_text(lines.push(line)) == lines_text(lines) + line.written(),
        schema() == lines_text(schema_lines()),
{
    lemma_steps_push(steps, step);
    lemma_lines_push(lines, line);
}

proof fn lemma_empty_tables_at(tables: nat)
    ensures
        empty_tables(tables).len() == tables,
        forall|table: int|
            0 <= table < tables ==> #[trigger] empty_tables(tables)[table] == (Step::EmptyTable {
                table,
            }),
    decreases tables,
{
    if tables > 0 {
        lemma_empty_tables_at((tables - 1) as nat);
    }
}

proof fn lemma_refill_tables_at(tables: nat)
    ensures
        refill_tables(tables).len() == tables,
        forall|table: int|
            0 <= table < tables ==> #[trigger] refill_tables(tables)[table] == (Step::RefillTable {
                table,
            }),
    decreases tables,
{
    if tables > 0 {
        lemma_refill_tables_at((tables - 1) as nat);
    }
}

proof fn lemma_reset_sequences_at(tables: nat)
    ensures
        reset_sequences(tables).len() == tables,
        forall|table: int|
            0 <= table < tables ==> #[trigger] reset_sequences(tables)[table] == reset_sequence(
                table,
            ),
    decreases tables,
{
    if tables > 0 {
        lemma_reset_sequences_at((tables - 1) as nat);
    }
}

/// What the restore procedure does, and in which order: the triggers are off from
/// its first statement to its last; the table of the tests' rows and every
/// numbered table are emptied; the seeded ones are filled; and every sequence is
/// set, behind the seed rows or at its start.
pub proof fn law_restore_in_order(table: int)
    ensures
        restore_steps().len() == 261,
        restore_steps()[0] == Step::TriggersOff,
        restore_steps()[1] == Step::EmptyScratch,
        0 <= table < 200 ==> restore_steps()[2 + table] == (Step::EmptyTable { table }),
        0 <= table < 8 ==> restore_steps()[202 + table] == (Step::RefillTable { table }),
        0 <= table < 8 ==> restore_steps()[210 + table] == (Step::ResetSequence {
            table,
            value: 4,
            called: true,
        }),
        8 <= table < 50 ==> restore_steps()[210 + table] == (Step::ResetSequence {
            table,
            value: 1,
            called: false,
        }),
        restore_steps()[260] == Step::TriggersOn,
{
    lemma_empty_tables_at(TABLES as nat);
    lemma_refill_tables_at(SEEDED_TABLES as nat);
    lemma_reset_sequences_at(SEQUENCES as nat);
}

/// Where the statements on a numbered table begin.
spec fn place(table: int) -> int {
    if table < SEEDED_TABLES {
        3 * table
    } else {
        table + 2 * SEEDED_TABLES
    }
}

proof fn lemma_define_table_at(tables: nat, table: int)
    requires
        0 <= table < tables,
    ensures
        define_tables(tables).len() == place(tables as int),
        define_tables(tables).subrange(place(table), place(table + 1)) == define_table(table),
    decreases tables,
{
    let before = define_tables((tables - 1) as nat);
    assert(before.len() == place(tables - 1)) by {
        if tables > 1 {
            lemma_define_table_at((tables - 1) as nat, 0);
        }
    }
    let after = define_tables(tables);
    if table == tables - 1 {
        assert(after.subrange(place(table), place(table + 1)) =~= define_table(table));
    } else {
        lemma_define_table_at((tables - 1) as nat, table);
        assert(after.subrange(place(table), place(table + 1)) =~= before.subrange(
            place(table),
            place(table + 1),
        ));
    }
}

/// What the schema creates, and in which order: the schema of the baseline and
/// the table of the tests' rows; each numbered table, the first of them with a
/// sequence, and right behind a seeded one its rows and then its copy; and at the
/// end the restore procedure.
pub proof fn law_schema_in_order(table: int)
    ensures
        schema_lines().len() == 219,
        schema_lines()[0] == Line::CreateBaseline,
        schema_lines()[1] == Line::CreateScratch,
        0 <= table < 8 ==> {
            &&& schema_lines()[2 + 3 * table] == (Line::CreateTable { table, sequence: true })
            &&& schema_lines()[3 + 3 * table] == (Line::SeedTable { table, rows: 4 })
            &&& schema_lines()[4 + 3 * table] == (Line::CopyTable { table })
        },
        8 <= table < 200 ==> schema_lines()[18 + table] == (Line::CreateTable {
            table,
            sequence: table < 50,
        }),
        schema_lines()[218] == (Line::DefineRestore { steps: restore_steps() }),
{
    let defined = define_tables(TABLES as nat);
    lemma_define_table_at(TABLES as nat, 0);
    assert(schema_lines() == (first_lines() + defined).push(
        Line::DefineRestore { steps: restore_steps() },
    ));
    if 0 <= table < 200 {
        lemma_define_table_at(TABLES as nat, table);
        let own = defined.subrange(place(table), place(table + 1));
        assert(own[0] == defined[place(table)]);
        assert(schema_lines()[2 + place(table)] == defined[place(table)]);
        if table < 8 {
            assert(own[1] == defined[place(table) + 1]);
            assert(own[2] == defined[place(table) + 2]);
        }
    }
}

}

//! What a test does in its database: one transaction of fixed statements.
use vstd::prelude::*;

use crate::schema;
use crate::schema::{SEEDED_TABLES, SEED_ROWS, TABLES};
use crate::sql;
use crate::sql::Statement;
use crate::text;

verus! {

/// Connections that a test opens to its database.
pub const CONNECTIONS_PER_TEST: usize = 2;

/// Rows that a test looks up.
pub const QUERIES_PER_TEST: usize = 16;

/// Statements that a test sends.
pub const STATEMENTS_PER_TEST: usize = QUERIES_PER_TEST + 6;

/// The lookup of a given number: the seeded tables in turn, and their rows in
/// turn.
pub open spec fn lookup(query: int) -> Statement<Seq<char>> {
    Statement::SelectPayload {
        table: (query % (SEEDED_TABLES as int)) as usize,
        row: (query % (SEED_ROWS as int) + 1) as i64,
    }
}

/// The statements of a test that writes row `id`.
pub open spec fn workload(id: i64) -> Seq<Statement<Seq<char>>> {
    seq![Statement::Begin, Statement::InsertScratch { id }, Statement::InsertLast { id }]
        + Seq::new(QUERIES_PER_TEST as nat, |query: int| lookup(query)) + seq![
        Statement::UpdateFirst { id },
        Statement::CountScratch,
        Statement::Commit,
    ]
}

/// The statement at position `at` of a test that writes row `id`.
pub fn workload_statement(id: i64, at: usize) -> (statement: Statement<String>)
    requires
        at < STATEMENTS_PER_TEST,
    ensures
        statement@ == workload(id)[at as int],
{
    if at == 0 {
        Statement::Begin
    } else if at == 1 {
        Statement::InsertScratch { id }
    } else if at == 2 {
        Statement::InsertLast { id }
    } else if at < 3 + QUERIES_PER_TEST {
        let query: usize = at - 3;
        Statement::SelectPayload {
            table: query % SEEDED_TABLES,
            row: (query % SEED_ROWS + 1) as i64,
        }
    } else if at == 3 + QUERIES_PER_TEST {
        Statement::UpdateFirst { id }
    } else if at == 4 + QUERIES_PER_TEST {
        Statement::CountScratch
    } else {
        Statement::Commit
    }
}

/// A test is one transaction: it begins first, commits last, and does neither
/// in between.
pub proof fn law_workload_is_one_transaction(id: i64)
    ensures
        workload(id).len() == STATEMENTS_PER_TEST,
        workload(id).first() == (Statement::<Seq<char>>::Begin),
        workload(id).last() == (Statement::<Seq<char>>::Commit),
        forall|at: int|
            0 < at < workload(id).len() - 1 ==> (#[trigger] workload(id)[at]) !is Begin && workload(
                id,
            )[at] !is Commit,
{
}

/// Every row that a test looks up is one that the template seeds, every seeded
/// table is looked up equally often, and the two tables that a test names by
/// number are the template's first and last.
pub proof fn law_workload_fits_schema(id: i64, query: int)
    requires
        0 <= query < QUERIES_PER_TEST,
    ensures
        workload(id)[3 + query] == lookup(query),
        (lookup(query)->table as int) == query % (SEEDED_TABLES as int),
        0 <= (lookup(query)->table as int) < SEEDED_TABLES,
        1 <= lookup(query)->row <= SEED_ROWS,
        QUERIES_PER_TEST % SEEDED_TABLES == 0,
        text::occurs(schema::table_name(TABLES - 1), sql::INSERT_LAST@),
        text::occurs(schema::table_name(0), sql::UPDATE_FIRST@),
{
    reveal_strlit("bench_table_");
    reveal_with_fuel(text::decimal, 4);
    let insert = sql::INSERT_LAST@;
    let update = sql::UPDATE_FIRST@;
    reveal_strlit(
        "INSERT INTO public.bench_table_199(id, payload) VALUES ($1, md5(($1::bigint)::text))",
    );
    reveal_strlit(
        "UPDATE public.bench_table_000 SET payload = md5(payload || ($1::bigint)::text) WHERE id = 1",
    );
    let last = schema::table_name(TABLES - 1);
    assert(last =~= insert.subrange(19, 34));
    assert(insert =~= insert.take(19) + last + insert.skip(34));
    let first = schema::table_name(0);
    assert(first =~= update.subrange(14, 29));
    assert(update =~= update.take(14) + first + update.skip(29));
}

/// What a test does, statement by statement: in one transaction it writes its own
/// row to the table of the tests' rows and to the last numbered table, looks a row
/// up in each seeded table twice, changes the first row of the first table, and
/// counts the tests' rows.
pub proof fn law_workload_in_order(id: i64, query: int)
    ensures
        workload(id).len() == 22,
        workload(id)[0] is Begin,
        workload(id)[1] == (Statement::<Seq<char>>::InsertScratch { id }),
        workload(id)[2] == (Statement::<Seq<char>>::InsertLast { id }),
        0 <= query < 16 ==> workload(id)[3 + query] == (Statement::<Seq<char>>::SelectPayload {
            table: (query % 8) as usize,
            row: (query % 4 + 1) as i64,
        }),
        workload(id)[19] == (Statement::<Seq<char>>::UpdateFirst { id }),
        workload(id)[20] is CountScratch,
        workload(id)[21] is Commit,
        CONNECTIONS_PER_TEST == 2,
        QUERIES_PER_TEST == 16,
        STATEMENTS_PER_TEST == 22,
{
}

/// A test writes no row but its own: the statements that write are sent with the
/// test's number, and with nothing else.
pub proof fn law_workload_writes_own_row(id: i64, at: int)
    requires
        0 <= at < 22,
    ensures
        at == 1 || at == 2 || at == 19 ==> workload(id)[at].parameters() == seq![
            sql::Param::<Seq<char>>::Int8(id),
        ],
        3 <= at < 19 ==> workload(id)[at].parameters() == seq![
            sql::Param::<Seq<char>>::Int8(((at - 3) % 4 + 1) as i64),
        ],
        at == 0 || at == 20 || at == 21 ==> workload(id)[at].parameters().len() == 0,
{
    law_workload_in_order(id, at - 3);
}

}

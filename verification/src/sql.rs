//! The statements that the suite sends: what each one is for, its text, its
//! parameters, and what is read from its answer.
use vstd::prelude::*;
use vstd::string::*;

use crate::ident;
use crate::names;
use crate::names::TEMPLATE_DB;
use crate::schema;
use crate::text;

verus! {

/// The comment that marks a pooled database as free.
pub const READY_COMMENT: &'static str = "repro-ready";

pub const LIST_LEFTOVERS: &'static str =
    "SELECT datname FROM pg_database WHERE datname = $1 OR starts_with(datname, 'repro_db_') OR starts_with(datname, 'repro_isolated_')";

pub const SEAL_TEMPLATE: &'static str = "SELECT pgrust_seal_template($1)";

pub const COUNT_SPARES: &'static str =
    "SELECT count(*) FROM pg_database WHERE datname LIKE 'tdb_spare_%'";

pub const LIST_READY: &'static str =
    "SELECT oid::bigint, datname FROM pg_database WHERE starts_with(datname, 'repro_db_') AND shobj_description(oid, 'pg_database') = $1 ORDER BY oid";

pub const TRY_LOCK: &'static str = "SELECT pg_try_advisory_lock($1)";

pub const STILL_READY: &'static str =
    "SELECT 1 FROM pg_database WHERE oid = $1::bigint::oid AND datname = $2 AND NOT datallowconn AND shobj_description(oid, 'pg_database') = $3";

pub const UNLOCK: &'static str = "SELECT pg_advisory_unlock($1)";

pub const BACKEND_PID: &'static str = "SELECT pg_backend_pid()";

pub const TERMINATE: &'static str =
    "SELECT pg_terminate_backend(pid) FROM pg_stat_activity WHERE datid = $1::bigint::oid AND pid <> $2";

pub const REMAINING: &'static str =
    "SELECT EXISTS(SELECT 1 FROM pg_stat_activity WHERE datid = $1::bigint::oid AND pid <> $2)";

pub const RESTORE: &'static str = "CALL benchmark_baseline.restore()";

pub const INSERT_SCRATCH: &'static str =
    "INSERT INTO public.bench_scratch(id, payload) VALUES ($1, md5(($1::bigint)::text))";

pub const INSERT_LAST: &'static str =
    "INSERT INTO public.bench_table_199(id, payload) VALUES ($1, md5(($1::bigint)::text))";

pub const UPDATE_FIRST: &'static str =
    "UPDATE public.bench_table_000 SET payload = md5(payload || ($1::bigint)::text) WHERE id = 1";

pub const COUNT_SCRATCH: &'static str = "SELECT count(*) FROM public.bench_scratch";

/// A database in a statement that takes no parameters. `S` is the type of text:
/// `String` in a program, a sequence of characters in a contract.
#[derive(Debug)]
pub enum Ident<S> {
    /// The name as it is.
    Bare(S),
    /// The name between quotes.
    Quoted(S),
}

/// A parameter of a statement.
#[derive(Debug)]
pub enum Param<S> {
    Text(S),
    Int8(i64),
    Int4(i32),
}

/// How a statement is sent, and what is read from its answer.
#[derive(Clone, Copy, Debug, PartialEq, Eq, Structural)]
pub enum Call {
    /// Without parameters; nothing is read.
    Batch,
    /// With parameters; only the number of rows comes back, and is not read.
    Execute,
    /// Any number of rows, which are not read.
    Rows,
    /// Exactly one row, which is not read.
    OneRow,
    /// At most one row, which is not read.
    MaybeRow,
    /// A name in each row.
    ReadNames,
    /// An object identifier and a name in each row.
    ReadCandidates,
    /// A truth value in exactly one row.
    ReadFlag,
    /// Whether there is a row; at most one.
    ReadFound,
    /// An eight-byte number in exactly one row.
    ReadCount,
    /// A four-byte number in exactly one row.
    ReadPid,
}

/// A statement, by what it is for.
#[derive(Debug)]
pub enum Statement<S> {
    /// The databases that an earlier setup or its tests left behind.
    ListLeftovers,
    /// Drops one of these, if it still exists.
    DropLeftover { name: S },
    CreateTemplate,
    ApplySchema,
    SealTemplate,
    /// The number of databases that the server keeps ready.
    CountSpares,
    /// Creates a copy of the template.
    CloneTemplate { database: Ident<S> },
    /// Lets connections to a database in, or refuses them.
    AllowConnections { database: Ident<S>, allowed: bool },
    /// Marks a database as free.
    MarkReady { database: Ident<S> },
    /// Takes that mark away.
    ClearMark { name: S },
    Rename { from: S, to: S },
    Drop { name: S },
    /// The databases that are marked as free.
    ListReady,
    TryLock { key: i64 },
    /// Whether a database is still free.
    StillReady { oid: i64, name: S },
    Unlock { key: i64 },
    /// The process that serves this session.
    BackendPid,
    /// Ends all sessions on a database but one.
    Terminate { oid: i64, keep: i32 },
    /// Whether a database has a session but this one.
    Remaining { oid: i64, keep: i32 },
    /// Brings the database back to its baseline.
    Restore,
    Begin,
    InsertScratch { id: i64 },
    InsertLast { id: i64 },
    SelectPayload { table: usize, row: i64 },
    UpdateFirst { id: i64 },
    CountScratch,
    Commit,
}

impl View for Ident<String> {
    type V = Ident<Seq<char>>;

    open spec fn view(&self) -> Ident<Seq<char>> {
        match self {
            Ident::Bare(name) => Ident::Bare(name@),
            Ident::Quoted(name) => Ident::Quoted(name@),
        }
    }
}

impl View for Param<String> {
    type V = Param<Seq<char>>;

    open spec fn view(&self) -> Param<Seq<char>> {
        match self {
            Param::Text(value) => Param::Text(value@),
            Param::Int8(value) => Param::Int8(*value),
            Param::Int4(value) => Param::Int4(*value),
        }
    }
}

impl View for Statement<String> {
    type V = Statement<Seq<char>>;

    open spec fn view(&self) -> Statement<Seq<char>> {
        match self {
            Statement::ListLeftovers => Statement::ListLeftovers,
            Statement::DropLeftover { name } => Statement::DropLeftover { name: name@ },
            Statement::CreateTemplate => Statement::CreateTemplate,
            Statement::ApplySchema => Statement::ApplySchema,
            Statement::SealTemplate => Statement::SealTemplate,
            Statement::CountSpares => Statement::CountSpares,
            Statement::CloneTemplate { database } => Statement::CloneTemplate {
                database: database@,
            },
            Statement::AllowConnections { database, allowed } => Statement::AllowConnections {
                database: database@,
                allowed: *allowed,
            },
            Statement::MarkReady { database } => Statement::MarkReady { database: database@ },
            Statement::ClearMark { name } => Statement::ClearMark { name: name@ },
            Statement::Rename { from, to } => Statement::Rename { from: from@, to: to@ },
            Statement::Drop { name } => Statement::Drop { name: name@ },
            Statement::ListReady => Statement::ListReady,
            Statement::TryLock { key } => Statement::TryLock { key: *key },
            Statement::StillReady { oid, name } => Statement::StillReady { oid: *oid, name: name@ },
            Statement::Unlock { key } => Statement::Unlock { key: *key },
            Statement::BackendPid => Statement::BackendPid,
            Statement::Terminate { oid, keep } => Statement::Terminate { oid: *oid, keep: *keep },
            Statement::Remaining { oid, keep } => Statement::Remaining { oid: *oid, keep: *keep },
            Statement::Restore => Statement::Restore,
            Statement::Begin => Statement::Begin,
            Statement::InsertScratch { id } => Statement::InsertScratch { id: *id },
            Statement::InsertLast { id } => Statement::InsertLast { id: *id },
            Statement::SelectPayload { table, row } => Statement::SelectPayload {
                table: *table,
                row: *row,
            },
            Statement::UpdateFirst { id } => Statement::UpdateFirst { id: *id },
            Statement::CountScratch => Statement::CountScratch,
            Statement::Commit => Statement::Commit,
        }
    }
}

impl Ident<Seq<char>> {
    /// The identifier as it stands in a statement.
    pub open spec fn written(self) -> Seq<char> {
        match self {
            Ident::Bare(name) => name,
            Ident::Quoted(name) => ident::quoted(name),
        }
    }
}

impl Statement<Seq<char>> {
    /// The statement's text.
    pub open spec fn written(self) -> Seq<char> {
        match self {
            Statement::ListLeftovers => LIST_LEFTOVERS@,
            Statement::DropLeftover { name } => "DROP DATABASE IF EXISTS "@ + ident::quoted(name)
                + " WITH (FORCE)"@,
            Statement::CreateTemplate => "CREATE DATABASE "@ + TEMPLATE_DB@,
            Statement::ApplySchema => schema::schema(),
            Statement::SealTemplate => SEAL_TEMPLATE@,
            Statement::CountSpares => COUNT_SPARES@,
            Statement::CloneTemplate { database } => "CREATE DATABASE "@ + database.written()
                + " TEMPLATE "@ + TEMPLATE_DB@,
            Statement::AllowConnections { database, allowed } => "ALTER DATABASE "@
                + database.written() + (if allowed {
                " ALLOW_CONNECTIONS true"@
            } else {
                " ALLOW_CONNECTIONS false"@
            }),
            Statement::MarkReady { database } => "COMMENT ON DATABASE "@ + database.written()
                + " IS '"@ + READY_COMMENT@ + "'"@,
            Statement::ClearMark { name } => "COMMENT ON DATABASE "@ + ident::quoted(name)
                + " IS NULL"@,
            Statement::Rename { from, to } => "ALTER DATABASE "@ + ident::quoted(from)
                + " RENAME TO "@ + ident::quoted(to),
            Statement::Drop { name } => "DROP DATABASE "@ + ident::quoted(name) + " WITH (FORCE)"@,
            Statement::ListReady => LIST_READY@,
            Statement::TryLock { .. } => TRY_LOCK@,
            Statement::StillReady { .. } => STILL_READY@,
            Statement::Unlock { .. } => UNLOCK@,
            Statement::BackendPid => BACKEND_PID@,
            Statement::Terminate { .. } => TERMINATE@,
            Statement::Remaining { .. } => REMAINING@,
            Statement::Restore => RESTORE@,
            Statement::Begin => "BEGIN"@,
            Statement::InsertScratch { .. } => INSERT_SCRATCH@,
            Statement::InsertLast { .. } => INSERT_LAST@,
            Statement::SelectPayload { table, .. } => "SELECT payload FROM public."@
                + schema::table_name(table as int) + " WHERE id = $1"@,
            Statement::UpdateFirst { .. } => UPDATE_FIRST@,
            Statement::CountScratch => COUNT_SCRATCH@,
            Statement::Commit => "COMMIT"@,
        }
    }

    /// The statement's parameters, in order.
    pub open spec fn parameters(self) -> Seq<Param<Seq<char>>> {
        match self {
            Statement::ListLeftovers => seq![Param::Text(TEMPLATE_DB@)],
            Statement::SealTemplate => seq![Param::Text(TEMPLATE_DB@)],
            Statement::ListReady => seq![Param::Text(READY_COMMENT@)],
            Statement::TryLock { key } => seq![Param::Int8(key)],
            Statement::StillReady { oid, name } => seq![
                Param::Int8(oid),
                Param::Text(name),
                Param::Text(READY_COMMENT@),
            ],
            Statement::Unlock { key } => seq![Param::Int8(key)],
            Statement::Terminate { oid, keep } => seq![Param::Int8(oid), Param::Int4(keep)],
            Statement::Remaining { oid, keep } => seq![Param::Int8(oid), Param::Int4(keep)],
            Statement::InsertScratch { id } => seq![Param::Int8(id)],
            Statement::InsertLast { id } => seq![Param::Int8(id)],
            Statement::SelectPayload { row, .. } => seq![Param::Int8(row)],
            Statement::UpdateFirst { id } => seq![Param::Int8(id)],
            _ => seq![],
        }
    }

    /// How the statement is sent.
    pub open spec fn sent(self) -> Call {
        match self {
            Statement::ListLeftovers => Call::ReadNames,
            Statement::SealTemplate => Call::OneRow,
            Statement::CountSpares => Call::ReadCount,
            Statement::ListReady => Call::ReadCandidates,
            Statement::TryLock { .. } => Call::ReadFlag,
            Statement::StillReady { .. } => Call::ReadFound,
            Statement::Unlock { .. } => Call::OneRow,
            Statement::BackendPid => Call::ReadPid,
            Statement::Terminate { .. } => Call::Rows,
            Statement::Remaining { .. } => Call::ReadFlag,
            Statement::Restore => Call::Execute,
            Statement::InsertScratch { .. } => Call::Execute,
            Statement::InsertLast { .. } => Call::Execute,
            Statement::SelectPayload { .. } => Call::MaybeRow,
            Statement::UpdateFirst { .. } => Call::Execute,
            Statement::CountScratch => Call::OneRow,
            _ => Call::Batch,
        }
    }
}

/// Appends an identifier as it stands in a statement.
fn push_ident(out: &mut String, database: &Ident<String>)
    ensures
        final(out)@ == old(out)@ + database@.written(),
{
    match database {
        Ident::Bare(name) => out.append(name.as_str()),
        Ident::Quoted(name) => push_quoted(out, name),
    }
}

/// Appends a quoted identifier.
fn push_quoted(out: &mut String, name: &String)
    ensures
        final(out)@ == old(out)@ + ident::quoted(name@),
{
    let quoted = ident::quote_ident(name.as_str());
    out.append(quoted.as_str());
}

/// Text as a parameter.
fn text_param(value: &str) -> (param: Param<String>)
    ensures
        param@ == Param::Text(value@),
{
    Param::Text(value.to_owned())
}

impl Statement<String> {
    /// The statement's text.
    pub fn sql(&self) -> (sql: String)
        ensures
            sql@ == self@.written(),
    {
        match self {
            Statement::ListLeftovers => LIST_LEFTOVERS.to_owned(),
            Statement::DropLeftover { name } => {
                let mut sql = "DROP DATABASE IF EXISTS ".to_owned();
                push_quoted(&mut sql, name);
                sql.append(" WITH (FORCE)");
                sql
            },
            Statement::CreateTemplate => {
                let mut sql = "CREATE DATABASE ".to_owned();
                sql.append(TEMPLATE_DB);
                sql
            },
            Statement::ApplySchema => schema::schema_sql(),
            Statement::SealTemplate => SEAL_TEMPLATE.to_owned(),
            Statement::CountSpares => COUNT_SPARES.to_owned(),
            Statement::CloneTemplate { database } => {
                let mut sql = "CREATE DATABASE ".to_owned();
                push_ident(&mut sql, database);
                sql.append(" TEMPLATE ");
                sql.append(TEMPLATE_DB);
                sql
            },
            Statement::AllowConnections { database, allowed } => {
                let mut sql = "ALTER DATABASE ".to_owned();
                push_ident(&mut sql, database);
                if *allowed {
                    sql.append(" ALLOW_CONNECTIONS true");
                } else {
                    sql.append(" ALLOW_CONNECTIONS false");
                }
                sql
            },
            Statement::MarkReady { database } => {
                let mut sql = "COMMENT ON DATABASE ".to_owned();
                push_ident(&mut sql, database);
                sql.append(" IS '");
                sql.append(READY_COMMENT);
                sql.append("'");
                sql
            },
            Statement::ClearMark { name } => {
                let mut sql = "COMMENT ON DATABASE ".to_owned();
                push_quoted(&mut sql, name);
                sql.append(" IS NULL");
                sql
            },
            Statement::Rename { from, to } => {
                let mut sql = "ALTER DATABASE ".to_owned();
                push_quoted(&mut sql, from);
                sql.append(" RENAME TO ");
                push_quoted(&mut sql, to);
                sql
            },
            Statement::Drop { name } => {
                let mut sql = "DROP DATABASE ".to_owned();
                push_quoted(&mut sql, name);
                sql.append(" WITH (FORCE)");
                sql
            },
            Statement::ListReady => LIST_READY.to_owned(),
            Statement::TryLock { .. } => TRY_LOCK.to_owned(),
            Statement::StillReady { .. } => STILL_READY.to_owned(),
            Statement::Unlock { .. } => UNLOCK.to_owned(),
            Statement::BackendPid => BACKEND_PID.to_owned(),
            Statement::Terminate { .. } => TERMINATE.to_owned(),
            Statement::Remaining { .. } => REMAINING.to_owned(),
            Statement::Restore => RESTORE.to_owned(),
            Statement::Begin => "BEGIN".to_owned(),
            Statement::InsertScratch { .. } => INSERT_SCRATCH.to_owned(),
            Statement::InsertLast { .. } => INSERT_LAST.to_owned(),
            Statement::SelectPayload { table, .. } => {
                let mut sql = "SELECT payload FROM public.".to_owned();
                schema::push_table_name(&mut sql, *table);
                sql.append(" WHERE id = $1");
                sql
            },
            Statement::UpdateFirst { .. } => UPDATE_FIRST.to_owned(),
            Statement::CountScratch => COUNT_SCRATCH.to_owned(),
            Statement::Commit => "COMMIT".to_owned(),
        }
    }

    /// The statement's parameters, in order.
    pub fn params(&self) -> (params: Vec<Param<String>>)
        ensures
            params@.map_values(|param: Param<String>| param@) == self@.parameters(),
    {
        let mut params: Vec<Param<String>> = Vec::new();
        match self {
            Statement::ListLeftovers | Statement::SealTemplate => {
                params.push(text_param(TEMPLATE_DB));
            },
            Statement::ListReady => {
                params.push(text_param(READY_COMMENT));
            },
            Statement::TryLock { key } | Statement::Unlock { key } => {
                params.push(Param::Int8(*key));
            },
            Statement::StillReady { oid, name } => {
                params.push(Param::Int8(*oid));
                params.push(text_param(name.as_str()));
                params.push(text_param(READY_COMMENT));
            },
            Statement::Terminate { oid, keep } | Statement::Remaining { oid, keep } => {
                params.push(Param::Int8(*oid));
                params.push(Param::Int4(*keep));
            },
            Statement::InsertScratch { id } | Statement::InsertLast { id }
            | Statement::UpdateFirst { id } => {
                params.push(Param::Int8(*id));
            },
            Statement::SelectPayload { row, .. } => {
                params.push(Param::Int8(*row));
            },
            _ => {},
        }
        assert(params@.map_values(|param: Param<String>| param@) =~= self@.parameters());
        params
    }

    /// How the statement is sent.
    pub fn call(&self) -> (call: Call)
        ensures
            call == self@.sent(),
    {
        match self {
            Statement::ListLeftovers => Call::ReadNames,
            Statement::CountSpares => Call::ReadCount,
            Statement::ListReady => Call::ReadCandidates,
            Statement::TryLock { .. } | Statement::Remaining { .. } => Call::ReadFlag,
            Statement::StillReady { .. } => Call::ReadFound,
            Statement::BackendPid => Call::ReadPid,
            Statement::SealTemplate | Statement::Unlock { .. } | Statement::CountScratch =>
                Call::OneRow,
            Statement::Terminate { .. } => Call::Rows,
            Statement::SelectPayload { .. } => Call::MaybeRow,
            Statement::Restore | Statement::InsertScratch { .. } | Statement::InsertLast { .. }
            | Statement::UpdateFirst { .. } => Call::Execute,
            _ => Call::Batch,
        }
    }
}

/// A statement that is sent without parameters has none.
pub proof fn law_batch_takes_no_parameters(statement: Statement<Seq<char>>)
    requires
        statement.sent() == Call::Batch,
    ensures
        statement.parameters() == Seq::<Param<Seq<char>>>::empty(),
{
}

/// The database that a statement names in quotes is the one it was made for,
/// whatever its name holds: behind the verb a quoted identifier reads as the
/// whole name, and what follows it is the statement's own text.
pub proof fn law_quoted_names_whole(name: Seq<char>, other: Seq<char>)
    ensures
        ident::read_quoted(
            (Statement::DropLeftover { name }).written().skip("DROP DATABASE IF EXISTS "@.len() as int),
        ) == Some((name, " WITH (FORCE)"@)),
        ident::read_quoted(
            (Statement::Drop { name }).written().skip("DROP DATABASE "@.len() as int),
        ) == Some((name, " WITH (FORCE)"@)),
        ident::read_quoted(
            (Statement::ClearMark { name }).written().skip("COMMENT ON DATABASE "@.len() as int),
        ) == Some((name, " IS NULL"@)),
        ident::read_quoted(
            (Statement::Rename { from: name, to: other }).written().skip(
                "ALTER DATABASE "@.len() as int,
            ),
        ) == Some((name, " RENAME TO "@ + ident::quoted(other))),
        ident::read_quoted(ident::quoted(other)) == Some((other, Seq::<char>::empty())),
{
    reveal_strlit(" WITH (FORCE)");
    reveal_strlit(" IS NULL");
    reveal_strlit(" RENAME TO ");
    let none = Seq::<char>::empty();
    let drop_leftover = "DROP DATABASE IF EXISTS "@;
    let drop = "DROP DATABASE "@;
    let comment = "COMMENT ON DATABASE "@;
    let alter = "ALTER DATABASE "@;
    ident::law_quoted_reads_back(name, " WITH (FORCE)"@);
    ident::law_quoted_reads_back(name, " IS NULL"@);
    ident::law_quoted_reads_back(name, " RENAME TO "@ + ident::quoted(other));
    ident::law_quoted_reads_back(other, none);
    assert(ident::quoted(other) + none =~= ident::quoted(other));
    assert((Statement::DropLeftover { name }).written().skip(drop_leftover.len() as int)
        =~= ident::quoted(name) + " WITH (FORCE)"@);
    assert((Statement::Drop { name }).written().skip(drop.len() as int) =~= ident::quoted(name)
        + " WITH (FORCE)"@);
    assert((Statement::ClearMark { name }).written().skip(comment.len() as int) =~= ident::quoted(
        name,
    ) + " IS NULL"@);
    assert((Statement::Rename { from: name, to: other }).written().skip(alter.len() as int)
        =~= ident::quoted(name) + (" RENAME TO "@ + ident::quoted(other)));
}

/// A condition that a database's name begins with `prefix`.
pub open spec fn name_begins(prefix: Seq<char>) -> Seq<char> {
    "starts_with(datname, '"@ + prefix + "')"@
}

/// Setup looks for leftovers under the prefixes of pooled and isolated names,
/// a run looks for a free database under the prefix of pooled names, and what a
/// run calls to restore its database is what the schema defines.
pub proof fn law_queries_fit_names()
    ensures
        text::occurs(name_begins(names::pool_prefix()), LIST_LEFTOVERS@),
        text::occurs(name_begins(names::isolated_prefix()), LIST_LEFTOVERS@),
        text::occurs(name_begins(names::pool_prefix()), LIST_READY@),
        RESTORE@ == "CALL "@ + "benchmark_baseline.restore()"@,
        text::occurs("PROCEDURE "@ + "benchmark_baseline.restore()"@, schema::schema()),
{
    reveal_strlit("repro_db_");
    reveal_strlit("repro_isolated_");
    reveal_strlit("starts_with(datname, '");
    reveal_strlit("')");
    reveal_strlit(
        "SELECT datname FROM pg_database WHERE datname = $1 OR starts_with(datname, 'repro_db_') OR starts_with(datname, 'repro_isolated_')",
    );
    reveal_strlit(
        "SELECT oid::bigint, datname FROM pg_database WHERE starts_with(datname, 'repro_db_') AND shobj_description(oid, 'pg_database') = $1 ORDER BY oid",
    );
    let pooled = name_begins(names::pool_prefix());
    let isolated = name_begins(names::isolated_prefix());
    let leftovers = LIST_LEFTOVERS@;
    let ready = LIST_READY@;
    assert(pooled =~= leftovers.subrange(54, 87));
    assert(leftovers =~= leftovers.take(54) + pooled + leftovers.skip(87));
    assert(isolated =~= leftovers.subrange(91, 130));
    assert(leftovers =~= leftovers.take(91) + isolated + leftovers.skip(130));
    assert(pooled =~= ready.subrange(51, 84));
    assert(ready =~= ready.take(51) + pooled + ready.skip(84));
    reveal_strlit("CALL ");
    reveal_strlit("PROCEDURE ");
    reveal_strlit("benchmark_baseline.restore()");
    reveal_strlit("CALL benchmark_baseline.restore()");
    assert(RESTORE@ =~= "CALL "@ + "benchmark_baseline.restore()"@);
    let line = schema::Line::DefineRestore { steps: schema::restore_steps() };
    let head =
        "CREATE OR REPLACE PROCEDURE benchmark_baseline.restore() LANGUAGE plpgsql AS $body$ BEGIN\n"@;
    reveal_strlit(
        "CREATE OR REPLACE PROCEDURE benchmark_baseline.restore() LANGUAGE plpgsql AS $body$ BEGIN\n",
    );
    let defined = "PROCEDURE "@ + "benchmark_baseline.restore()"@;
    assert(defined =~= head.subrange(18, 56));
    assert(line.written() =~= head.take(18) + defined + line.written().skip(56));
    let before = schema::first_lines() + schema::define_tables(schema::TABLES as nat);
    schema::lemma_lines_push(before, line);
    text::lemma_occurs_within(defined, schema::lines_text(before), line.written(), seq![]);
    assert(schema::schema() =~= schema::lines_text(before) + line.written() + Seq::<char>::empty());
}

/// An identifier stands in a statement as its name, with quotes or without.
pub proof fn law_identifiers_written(name: Seq<char>)
    ensures
        (Ident::Bare(name)).written() == name,
        (Ident::Quoted(name)).written() == ident::quoted(name),
{
}

/// What the statements say that create, change and drop databases, whatever the
/// databases are called: a verb, the database, and what is to become of it.
pub proof fn law_database_statements_say(
    database: Ident<Seq<char>>,
    name: Seq<char>,
    other: Seq<char>,
)
    ensures
        (Statement::<Seq<char>>::CreateTemplate).written() == "CREATE DATABASE "@
            + "repro_template"@,
        (Statement::CloneTemplate { database }).written() == "CREATE DATABASE "@
            + database.written() + " TEMPLATE "@ + "repro_template"@,
        (Statement::AllowConnections { database, allowed: true }).written() == "ALTER DATABASE "@
            + database.written() + " ALLOW_CONNECTIONS true"@,
        (Statement::AllowConnections { database, allowed: false }).written() == "ALTER DATABASE "@
            + database.written() + " ALLOW_CONNECTIONS false"@,
        (Statement::MarkReady { database }).written() == "COMMENT ON DATABASE "@
            + database.written() + " IS '"@ + "repro-ready"@ + "'"@,
        (Statement::ClearMark { name }).written() == "COMMENT ON DATABASE "@ + ident::quoted(name)
            + " IS NULL"@,
        (Statement::Rename { from: name, to: other }).written() == "ALTER DATABASE "@
            + ident::quoted(name) + " RENAME TO "@ + ident::quoted(other),
        (Statement::Drop { name }).written() == "DROP DATABASE "@ + ident::quoted(name)
            + " WITH (FORCE)"@,
        (Statement::DropLeftover { name }).written() == "DROP DATABASE IF EXISTS "@
            + ident::quoted(name) + " WITH (FORCE)"@,
{
}

/// A statement that creates, changes or marks a database names all of it, and
/// behind the name stands what is to become of the database: it is a copy of the
/// template, lets connections in or not, or is free.
pub proof fn law_named_database_reads_back(name: Seq<char>, allowed: bool)
    ensures
        ident::read_quoted(
            (Statement::CloneTemplate { database: Ident::Quoted(name) }).written().skip(
                "CREATE DATABASE "@.len() as int,
            ),
        ) == Some((name, " TEMPLATE "@ + "repro_template"@)),
        ident::read_quoted(
            (Statement::AllowConnections { database: Ident::Quoted(name), allowed }).written().skip(
                "ALTER DATABASE "@.len() as int,
            ),
        ) == Some(
            (
                name,
                if allowed {
                    " ALLOW_CONNECTIONS true"@
                } else {
                    " ALLOW_CONNECTIONS false"@
                },
            ),
        ),
        ident::read_quoted(
            (Statement::MarkReady { database: Ident::Quoted(name) }).written().skip(
                "COMMENT ON DATABASE "@.len() as int,
            ),
        ) == Some((name, " IS '"@ + "repro-ready"@ + "'"@)),
{
    reveal_strlit(" TEMPLATE ");
    reveal_strlit(" ALLOW_CONNECTIONS true");
    reveal_strlit(" ALLOW_CONNECTIONS false");
    reveal_strlit(" IS '");
    let database = Ident::Quoted(name);
    let template = " TEMPLATE "@ + "repro_template"@;
    let allow = if allowed {
        " ALLOW_CONNECTIONS true"@
    } else {
        " ALLOW_CONNECTIONS false"@
    };
    let ready = " IS '"@ + "repro-ready"@ + "'"@;
    ident::law_quoted_reads_back(name, template);
    ident::law_quoted_reads_back(name, allow);
    ident::law_quoted_reads_back(name, ready);
    assert((Statement::CloneTemplate { database }).written().skip("CREATE DATABASE "@.len() as int)
        =~= ident::quoted(name) + template);
    assert((Statement::AllowConnections { database, allowed }).written().skip(
        "ALTER DATABASE "@.len() as int,
    ) =~= ident::quoted(name) + allow);
    assert((Statement::MarkReady { database }).written().skip("COMMENT ON DATABASE "@.len() as int)
        =~= ident::quoted(name) + ready);
}

/// What the other statements say: the same for every value that they are sent
/// with.
pub proof fn law_other_statements_say(
    key: i64,
    oid: i64,
    name: Seq<char>,
    keep: i32,
    id: i64,
    table: usize,
    row: i64,
)
    ensures
        (Statement::<Seq<char>>::ListLeftovers).written()
            == "SELECT datname FROM pg_database WHERE datname = $1 OR starts_with(datname, 'repro_db_') OR starts_with(datname, 'repro_isolated_')"@,
        (Statement::<Seq<char>>::ApplySchema).written() == schema::lines_text(
            schema::schema_lines(),
        ),
        (Statement::<Seq<char>>::SealTemplate).written() == "SELECT pgrust_seal_template($1)"@,
        (Statement::<Seq<char>>::CountSpares).written()
            == "SELECT count(*) FROM pg_database WHERE datname LIKE 'tdb_spare_%'"@,
        (Statement::<Seq<char>>::ListReady).written()
            == "SELECT oid::bigint, datname FROM pg_database WHERE starts_with(datname, 'repro_db_') AND shobj_description(oid, 'pg_database') = $1 ORDER BY oid"@,
        (Statement::<Seq<char>>::TryLock { key }).written() == "SELECT pg_try_advisory_lock($1)"@,
        (Statement::StillReady { oid, name }).written()
            == "SELECT 1 FROM pg_database WHERE oid = $1::bigint::oid AND datname = $2 AND NOT datallowconn AND shobj_description(oid, 'pg_database') = $3"@,
        (Statement::<Seq<char>>::Unlock { key }).written() == "SELECT pg_advisory_unlock($1)"@,
        (Statement::<Seq<char>>::BackendPid).written() == "SELECT pg_backend_pid()"@,
        (Statement::<Seq<char>>::Terminate { oid, keep }).written()
            == "SELECT pg_terminate_backend(pid) FROM pg_stat_activity WHERE datid = $1::bigint::oid AND pid <> $2"@,
        (Statement::<Seq<char>>::Remaining { oid, keep }).written()
            == "SELECT EXISTS(SELECT 1 FROM pg_stat_activity WHERE datid = $1::bigint::oid AND pid <> $2)"@,
        (Statement::<Seq<char>>::Restore).written() == "CALL benchmark_baseline.restore()"@,
        (Statement::<Seq<char>>::Begin).written() == "BEGIN"@,
        (Statement::<Seq<char>>::InsertScratch { id }).written()
            == "INSERT INTO public.bench_scratch(id, payload) VALUES ($1, md5(($1::bigint)::text))"@,
        (Statement::<Seq<char>>::InsertLast { id }).written()
            == "INSERT INTO public.bench_table_199(id, payload) VALUES ($1, md5(($1::bigint)::text))"@,
        (Statement::<Seq<char>>::SelectPayload { table, row }).written()
            == "SELECT payload FROM public."@ + ("bench_table_"@ + text::padded(table as nat, 3))
            + " WHERE id = $1"@,
        (Statement::<Seq<char>>::UpdateFirst { id }).written()
            == "UPDATE public.bench_table_000 SET payload = md5(payload || ($1::bigint)::text) WHERE id = 1"@,
        (Statement::<Seq<char>>::CountScratch).written()
            == "SELECT count(*) FROM public.bench_scratch"@,
        (Statement::<Seq<char>>::Commit).written() == "COMMIT"@,
{
}

/// A statement is sent with the values that it was made with, in the order of its
/// placeholders: a lock's key, a database's identifier and name, the process that
/// is to stay, a row's number. The suite's fixed texts are the template's name and
/// the mark of free databases. Every other statement is sent with nothing.
pub proof fn law_parameters_are_fields(
    key: i64,
    oid: i64,
    name: Seq<char>,
    other: Seq<char>,
    keep: i32,
    id: i64,
    table: usize,
    row: i64,
    database: Ident<Seq<char>>,
    allowed: bool,
)
    ensures
        (Statement::TryLock { key }).parameters() == seq![Param::<Seq<char>>::Int8(key)],
        (Statement::Unlock { key }).parameters() == seq![Param::<Seq<char>>::Int8(key)],
        (Statement::StillReady { oid, name }).parameters() == seq![
            Param::Int8(oid),
            Param::Text(name),
            Param::Text("repro-ready"@),
        ],
        (Statement::Terminate { oid, keep }).parameters() == seq![
            Param::<Seq<char>>::Int8(oid),
            Param::Int4(keep),
        ],
        (Statement::Remaining { oid, keep }).parameters() == seq![
            Param::<Seq<char>>::Int8(oid),
            Param::Int4(keep),
        ],
        (Statement::InsertScratch { id }).parameters() == seq![Param::<Seq<char>>::Int8(id)],
        (Statement::InsertLast { id }).parameters() == seq![Param::<Seq<char>>::Int8(id)],
        (Statement::UpdateFirst { id }).parameters() == seq![Param::<Seq<char>>::Int8(id)],
        (Statement::SelectPayload { table, row }).parameters() == seq![
            Param::<Seq<char>>::Int8(row),
        ],
        (Statement::<Seq<char>>::ListLeftovers).parameters() == seq![
            Param::Text("repro_template"@),
        ],
        (Statement::<Seq<char>>::SealTemplate).parameters() == seq![Param::Text("repro_template"@)],
        (Statement::<Seq<char>>::ListReady).parameters() == seq![Param::Text("repro-ready"@)],
        (Statement::DropLeftover { name }).parameters().len() == 0,
        (Statement::<Seq<char>>::CreateTemplate).parameters().len() == 0,
        (Statement::<Seq<char>>::ApplySchema).parameters().len() == 0,
        (Statement::<Seq<char>>::CountSpares).parameters().len() == 0,
        (Statement::CloneTemplate { database }).parameters().len() == 0,
        (Statement::AllowConnections { database, allowed }).parameters().len() == 0,
        (Statement::MarkReady { database }).parameters().len() == 0,
        (Statement::ClearMark { name }).parameters().len() == 0,
        (Statement::Rename { from: name, to: other }).parameters().len() == 0,
        (Statement::Drop { name }).parameters().len() == 0,
        (Statement::<Seq<char>>::BackendPid).parameters().len() == 0,
        (Statement::<Seq<char>>::Restore).parameters().len() == 0,
        (Statement::<Seq<char>>::Begin).parameters().len() == 0,
        (Statement::<Seq<char>>::CountScratch).parameters().len() == 0,
        (Statement::<Seq<char>>::Commit).parameters().len() == 0,
{
}

/// What is read from a statement's answer follows from what it asks for: names,
/// candidates, a truth value, whether there is a row, a count, a process; and of
/// all others nothing is read. Those that ask for nothing and take no values are
/// sent as they are.
pub proof fn law_answers_read(statement: Statement<Seq<char>>)
    ensures
        statement.sent() == Call::ReadNames <==> statement is ListLeftovers,
        statement.sent() == Call::ReadCandidates <==> statement is ListReady,
        statement.sent() == Call::ReadFlag <==> statement is TryLock || statement is Remaining,
        statement.sent() == Call::ReadFound <==> statement is StillReady,
        statement.sent() == Call::ReadCount <==> statement is CountSpares,
        statement.sent() == Call::ReadPid <==> statement is BackendPid,
        statement.sent() == Call::OneRow <==> statement is SealTemplate || statement is Unlock
            || statement is CountScratch,
        statement.sent() == Call::Rows <==> statement is Terminate,
        statement.sent() == Call::MaybeRow <==> statement is SelectPayload,
        statement.sent() == Call::Execute <==> statement is Restore || statement is InsertScratch
            || statement is InsertLast || statement is UpdateFirst,
{
}

/// Contracts speak of the statement that a program holds: of the same kind, with
/// the same numbers, and with the characters of its texts.
pub proof fn law_statements_as_contracts_see_them(statement: Statement<String>)
    ensures
        match statement {
            Statement::ListLeftovers => statement@ is ListLeftovers,
            Statement::DropLeftover { name } => statement@ == (Statement::DropLeftover {
                name: name@,
            }),
            Statement::CreateTemplate => statement@ is CreateTemplate,
            Statement::ApplySchema => statement@ is ApplySchema,
            Statement::SealTemplate => statement@ is SealTemplate,
            Statement::CountSpares => statement@ is CountSpares,
            Statement::CloneTemplate { database } => statement@ == (Statement::CloneTemplate {
                database: database@,
            }),
            Statement::AllowConnections { database, allowed } => statement@ == (
            Statement::AllowConnections { database: database@, allowed }),
            Statement::MarkReady { database } => statement@ == (Statement::MarkReady {
                database: database@,
            }),
            Statement::ClearMark { name } => statement@ == (Statement::ClearMark { name: name@ }),
            Statement::Rename { from, to } => statement@ == (Statement::Rename {
                from: from@,
                to: to@,
            }),
            Statement::Drop { name } => statement@ == (Statement::Drop { name: name@ }),
            Statement::ListReady => statement@ is ListReady,
            Statement::TryLock { key } => statement@ == (Statement::<Seq<char>>::TryLock { key }),
            Statement::StillReady { oid, name } => statement@ == (Statement::StillReady {
                oid,
                name: name@,
            }),
            Statement::Unlock { key } => statement@ == (Statement::<Seq<char>>::Unlock { key }),
            Statement::BackendPid => statement@ is BackendPid,
            Statement::Terminate { oid, keep } => statement@ == (Statement::<
                Seq<char>,
            >::Terminate { oid, keep }),
            Statement::Remaining { oid, keep } => statement@ == (Statement::<
                Seq<char>,
            >::Remaining { oid, keep }),
            Statement::Restore => statement@ is Restore,
            Statement::Begin => statement@ is Begin,
            Statement::InsertScratch { id } => statement@ == (Statement::<
                Seq<char>,
            >::InsertScratch { id }),
            Statement::InsertLast { id } => statement@ == (Statement::<Seq<char>>::InsertLast {
                id,
            }),
            Statement::SelectPayload { table, row } => statement@ == (Statement::<
                Seq<char>,
            >::SelectPayload { table, row }),
            Statement::UpdateFirst { id } => statement@ == (Statement::<Seq<char>>::UpdateFirst {
                id,
            }),
            Statement::CountScratch => statement@ is CountScratch,
            Statement::Commit => statement@ is Commit,
        },
{
}

/// So do they of identifiers and parameters.
pub proof fn law_values_as_contracts_see_them(text: String, eight: i64, four: i32)
    ensures
        (Ident::Bare(text))@ == Ident::Bare(text@),
        (Ident::Quoted(text))@ == Ident::Quoted(text@),
        (Param::Text(text))@ == Param::Text(text@),
        (Param::<String>::Int8(eight))@ == Param::<Seq<char>>::Int8(eight),
        (Param::<String>::Int4(four))@ == Param::<Seq<char>>::Int4(four),
{
}

}

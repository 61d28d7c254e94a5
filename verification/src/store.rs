//! What statements do to the tables of one database: the schema fills an empty
//! one, the workload writes to it, and the restore procedure undoes every change.
//!
//! Rows hold the output of the server's digest function. Laws hold whatever that
//! function is, so it is a parameter here.
use vstd::prelude::*;

use crate::schema;
use crate::schema::{Line, Step, SEEDED_TABLES, SEED_ROWS, SEQUENCES, TABLES};
use crate::sql::Statement;
use crate::text;
use crate::workload;

verus! {

/// The sequence that numbers a table's rows, as the server keeps it.
pub struct Sequence {
    /// The last number, or the next one where none was drawn.
    pub value: int,
    /// Whether a number was drawn.
    pub called: bool,
}

/// The tables of a database. Rows are payloads by their key.
#[verifier::ext_equal]
pub struct Store {
    /// The table that tests write their rows to.
    pub scratch: Option<Map<int, Seq<char>>>,
    /// The numbered tables.
    pub tables: Map<int, Map<int, Seq<char>>>,
    /// The sequences, by the table whose rows they number.
    pub sequences: Map<int, Sequence>,
    /// The baseline copies, by the table that they were taken from.
    pub baseline: Option<Map<int, Map<int, Seq<char>>>>,
    /// The restore procedure.
    pub restore: Option<Seq<Step>>,
}

impl Sequence {
    /// A sequence that nothing was drawn from.
    pub open spec fn fresh() -> Sequence {
        Sequence { value: 1, called: false }
    }

    /// The number that is drawn next.
    pub open spec fn next(self) -> int {
        if self.called {
            self.value + 1
        } else {
            self.value
        }
    }
}

impl Store {
    /// A database without tables.
    pub open spec fn empty() -> Store {
        Store {
            scratch: None,
            tables: Map::empty(),
            sequences: Map::empty(),
            baseline: None,
            restore: None,
        }
    }

    /// The database behind a statement of the restore procedure; none where the
    /// server refuses it.
    pub open spec fn after_step(self, step: Step) -> Option<Store> {
        match step {
            Step::TriggersOff => Some(self),
            Step::TriggersOn => Some(self),
            Step::EmptyScratch => if self.scratch is Some {
                Some(Store { scratch: Some(Map::empty()), ..self })
            } else {
                None
            },
            Step::EmptyTable { table } => if self.tables.contains_key(table) {
                Some(Store { tables: self.tables.insert(table, Map::empty()), ..self })
            } else {
                None
            },
            Step::RefillTable { table } => match self.baseline {
                Some(baseline) => if baseline.contains_key(table) && self.tables.contains_key(table)
                    && self.tables[table].dom().disjoint(baseline[table].dom()) {
                    Some(
                        Store {
                            tables: self.tables.insert(
                                table,
                                self.tables[table].union_prefer_right(baseline[table]),
                            ),
                            ..self
                        },
                    )
                } else {
                    None
                },
                None => None,
            },
            Step::ResetSequence { table, value, called } => if self.sequences.contains_key(table) {
                Some(
                    Store {
                        sequences: self.sequences.insert(
                            table,
                            Sequence { value: value as int, called },
                        ),
                        ..self
                    },
                )
            } else {
                None
            },
        }
    }

    /// The database behind a number of these.
    pub open spec fn after_steps(self, steps: Seq<Step>) -> Option<Store>
        decreases steps.len(),
    {
        if steps.len() == 0 {
            Some(self)
        } else {
            match self.after_steps(steps.drop_last()) {
                Some(store) => store.after_step(steps.last()),
                None => None,
            }
        }
    }

    /// The database behind a row whose key the table's sequence draws.
    pub open spec fn after_draw(self, table: int, payload: Seq<char>) -> Option<Store> {
        let id = self.sequences[table].next();
        if self.tables.contains_key(table) && self.sequences.contains_key(table)
            && !self.tables[table].contains_key(id) {
            Some(
                Store {
                    tables: self.tables.insert(table, self.tables[table].insert(id, payload)),
                    sequences: self.sequences.insert(table, Sequence { value: id, called: true }),
                    ..self
                },
            )
        } else {
            None
        }
    }

    /// The database behind a number of such rows: the digests of the numbers
    /// from one on.
    pub open spec fn after_draws(
        self,
        table: int,
        rows: nat,
        digest: spec_fn(Seq<char>) -> Seq<char>,
    ) -> Option<Store>
        decreases rows,
    {
        if rows == 0 {
            Some(self)
        } else {
            match self.after_draws(table, (rows - 1) as nat, digest) {
                Some(store) => store.after_draw(table, digest(text::decimal(rows))),
                None => None,
            }
        }
    }

    /// The database behind a statement of the schema; none where the server
    /// refuses it.
    pub open spec fn after_line(self, line: Line, digest: spec_fn(Seq<char>) -> Seq<char>) -> Option<
        Store,
    > {
        match line {
            Line::CreateBaseline => if self.baseline is None {
                Some(Store { baseline: Some(Map::empty()), ..self })
            } else {
                None
            },
            Line::CreateScratch => if self.scratch is None {
                Some(Store { scratch: Some(Map::empty()), ..self })
            } else {
                None
            },
            Line::CreateTable { table, sequence } => if !self.tables.contains_key(table) {
                Some(
                    Store {
                        tables: self.tables.insert(table, Map::empty()),
                        sequences: if sequence {
                            self.sequences.insert(table, Sequence::fresh())
                        } else {
                            self.sequences
                        },
                        ..self
                    },
                )
            } else {
                None
            },
            Line::SeedTable { table, rows } => self.after_draws(table, rows, digest),
            Line::CopyTable { table } => match self.baseline {
                Some(baseline) => if self.tables.contains_key(table) && !baseline.contains_key(
                    table,
                ) {
                    Some(
                        Store {
                            baseline: Some(baseline.insert(table, self.tables[table])),
                            ..self
                        },
                    )
                } else {
                    None
                },
                None => None,
            },
            Line::DefineRestore { steps } => if self.baseline is Some {
                Some(Store { restore: Some(steps), ..self })
            } else {
                None
            },
        }
    }

    /// The database behind a number of these.
    pub open spec fn after_lines(
        self,
        lines: Seq<Line>,
        digest: spec_fn(Seq<char>) -> Seq<char>,
    ) -> Option<Store>
        decreases lines.len(),
    {
        if lines.len() == 0 {
            Some(self)
        } else {
            match self.after_lines(lines.drop_last(), digest) {
                Some(store) => store.after_line(lines.last(), digest),
                None => None,
            }
        }
    }

    /// The database behind a statement that is sent to it; none where the server
    /// refuses it.
    pub open spec fn after_statement(
        self,
        statement: Statement<Seq<char>>,
        digest: spec_fn(Seq<char>) -> Seq<char>,
    ) -> Option<Store> {
        match statement {
            Statement::ApplySchema => self.after_lines(schema::schema_lines(), digest),
            Statement::Restore => match self.restore {
                Some(steps) => self.after_steps(steps),
                None => None,
            },
            Statement::InsertScratch { id } => match self.scratch {
                Some(rows) => if !rows.contains_key(id as int) {
                    Some(
                        Store {
                            scratch: Some(
                                rows.insert(id as int, digest(text::signed_decimal(id as int))),
                            ),
                            ..self
                        },
                    )
                } else {
                    None
                },
                None => None,
            },
            Statement::InsertLast { id } => {
                let table = TABLES - 1;
                if self.tables.contains_key(table) && !self.tables[table].contains_key(id as int) {
                    Some(
                        Store {
                            tables: self.tables.insert(
                                table,
                                self.tables[table].insert(
                                    id as int,
                                    digest(text::signed_decimal(id as int)),
                                ),
                            ),
                            ..self
                        },
                    )
                } else {
                    None
                }
            },
            Statement::SelectPayload { table, .. } => if self.tables.contains_key(table as int) {
                Some(self)
            } else {
                None
            },
            Statement::UpdateFirst { id } => if self.tables.contains_key(0) {
                let rows = self.tables[0];
                if rows.contains_key(1) {
                    Some(
                        Store {
                            tables: self.tables.insert(
                                0,
                                rows.insert(1, digest(rows[1] + text::signed_decimal(id as int))),
                            ),
                            ..self
                        },
                    )
                } else {
                    Some(self)
                }
            } else {
                None
            },
            Statement::CountScratch => if self.scratch is Some {
                Some(self)
            } else {
                None
            },
            _ => Some(self),
        }
    }

    /// The database behind a number of these.
    pub open spec fn after_statements(
        self,
        statements: Seq<Statement<Seq<char>>>,
        digest: spec_fn(Seq<char>) -> Seq<char>,
    ) -> Option<Store>
        decreases statements.len(),
    {
        if statements.len() == 0 {
            Some(self)
        } else {
            match self.after_statements(statements.drop_last(), digest) {
                Some(store) => store.after_statement(statements.last(), digest),
                None => None,
            }
        }
    }

    /// What is committed of a test that writes row `id`: all of it, or nothing
    /// where a statement of it is refused.
    pub open spec fn after_workload(self, id: i64, digest: spec_fn(Seq<char>) -> Seq<char>) -> Store {
        match self.after_statements(workload::workload(id), digest) {
            Some(store) => store,
            None => self,
        }
    }

    /// Whether no statement of a test that writes row `id` is refused.
    pub open spec fn accepts(self, id: i64, digest: spec_fn(Seq<char>) -> Seq<char>) -> bool {
        self.after_statements(workload::workload(id), digest) is Some
    }

    /// The database has the template's tables, sequences, baseline and restore
    /// procedure, whatever rows its public tables hold and however many numbers
    /// were drawn.
    pub open spec fn of_template(self, digest: spec_fn(Seq<char>) -> Seq<char>) -> bool {
        &&& self.scratch is Some
        &&& self.tables.dom() == template(digest).tables.dom()
        &&& self.sequences.dom() == template(digest).sequences.dom()
        &&& self.baseline == template(digest).baseline
        &&& self.restore == template(digest).restore
    }
}

/// The first rows that a seeded table gets: the digests of their keys.
pub open spec fn seed_rows(rows: nat, digest: spec_fn(Seq<char>) -> Seq<char>) -> Map<
    int,
    Seq<char>,
> {
    Map::new(|id: int| 1 <= id <= rows, |id: int| digest(text::decimal(id as nat)))
}

/// The rows of a numbered table in the template.
pub open spec fn template_rows(table: int, digest: spec_fn(Seq<char>) -> Seq<char>) -> Map<
    int,
    Seq<char>,
> {
    if table < SEEDED_TABLES {
        seed_rows(SEED_ROWS as nat, digest)
    } else {
        Map::empty()
    }
}

/// The sequence of a numbered table in the template.
pub open spec fn template_sequence(table: int) -> Sequence {
    if table < SEEDED_TABLES {
        Sequence { value: SEED_ROWS as int, called: true }
    } else {
        Sequence::fresh()
    }
}

/// The template, as far as its first numbered tables.
pub open spec fn template_part(tables: int, digest: spec_fn(Seq<char>) -> Seq<char>) -> Store {
    Store {
        scratch: Some(Map::empty()),
        tables: Map::new(
            |table: int| 0 <= table < tables,
            |table: int| template_rows(table, digest),
        ),
        sequences: Map::new(
            |table: int| 0 <= table < tables && table < SEQUENCES,
            |table: int| template_sequence(table),
        ),
        baseline: Some(
            Map::new(
                |table: int| 0 <= table < tables && table < SEEDED_TABLES,
                |table: int| template_rows(table, digest),
            ),
        ),
        restore: None,
    }
}

/// The template: an empty table for the tests' rows, numbered tables of which
/// the first hold seed rows and a copy of them, sequences behind these rows, and
/// the restore procedure.
pub open spec fn template(digest: spec_fn(Seq<char>) -> Seq<char>) -> Store {
    Store {
        restore: Some(schema::restore_steps()),
        ..template_part(TABLES as int, digest)
    }
}

proof fn lemma_steps_push(store: Store, steps: Seq<Step>, step: Step)
    ensures
        store.after_steps(steps.push(step)) == (match store.after_steps(steps) {
            Some(before) => before.after_step(step),
            None => None,
        }),
{
    assert(steps.push(step).drop_last() =~= steps);
}

proof fn lemma_lines_push(
    store: Store,
    lines: Seq<Line>,
    line: Line,
    digest: spec_fn(Seq<char>) -> Seq<char>,
)
    ensures
        store.after_lines(lines.push(line), digest) == (match store.after_lines(lines, digest) {
            Some(before) => before.after_line(line, digest),
            None => None,
        }),
{
    assert(lines.push(line).drop_last() =~= lines);
}

proof fn lemma_draws(
    store: Store,
    table: int,
    rows: nat,
    digest: spec_fn(Seq<char>) -> Seq<char>,
)
    requires
        store.tables.contains_key(table),
        store.tables[table] == Map::<int, Seq<char>>::empty(),
        store.sequences.contains_key(table),
        store.sequences[table] == Sequence::fresh(),
        rows > 0,
    ensures
        store.after_draws(table, rows, digest) == Some(
            Store {
                tables: store.tables.insert(table, seed_rows(rows, digest)),
                sequences: store.sequences.insert(
                    table,
                    Sequence { value: rows as int, called: true },
                ),
                ..store
            },
        ),
    decreases rows,
{
    reveal_with_fuel(Store::after_draws, 2);
    let before = seed_rows((rows - 1) as nat, digest);
    assert(seed_rows(rows, digest) =~= before.insert(
        rows as int,
        digest(text::decimal(rows)),
    ));
    if rows > 1 {
        lemma_draws(store, table, (rows - 1) as nat, digest);
    } else {
        assert(before =~= store.tables[table]);
    }
    let after = store.after_draws(table, rows, digest)->0;
    assert(after.tables =~= store.tables.insert(table, seed_rows(rows, digest)));
    assert(after.sequences =~= store.sequences.insert(
        table,
        Sequence { value: rows as int, called: true },
    ));
}

proof fn lemma_definitions(tables: nat, digest: spec_fn(Seq<char>) -> Seq<char>)
    requires
        tables <= TABLES,
    ensures
        Store::empty().after_lines(
            schema::first_lines() + schema::define_tables(tables),
            digest,
        ) == Some(template_part(tables as int, digest)),
    decreases tables,
{
    let lines = schema::first_lines() + schema::define_tables(tables);
    if tables == 0 {
        reveal_with_fuel(Store::after_lines, 3);
        assert(lines =~= schema::first_lines());
        assert(lines.drop_last() =~= seq![Line::CreateBaseline]);
        assert(lines.drop_last().drop_last() =~= seq![]);
        let part = template_part(0, digest);
        assert(part.tables =~= Map::empty());
        assert(part.sequences =~= Map::empty());
        assert(part.baseline->0 =~= Map::empty());
    } else {
        let table = tables - 1;
        let before = schema::first_lines() + schema::define_tables(table as nat);
        lemma_definitions(table as nat, digest);
        let create = Line::CreateTable { table, sequence: table < SEQUENCES };
        let seed = Line::SeedTable { table, rows: SEED_ROWS as nat };
        let copy = Line::CopyTable { table };
        lemma_lines_push(Store::empty(), before, create, digest);
        let start = template_part(table, digest);
        let part = template_part(tables as int, digest);
        let created = start.after_line(create, digest)->0;
        if table < SEEDED_TABLES {
            assert(lines =~= before.push(create).push(seed).push(copy));
            lemma_lines_push(Store::empty(), before.push(create), seed, digest);
            lemma_lines_push(Store::empty(), before.push(create).push(seed), copy, digest);
            lemma_draws(created, table, SEED_ROWS as nat, digest);
            let seeded = created.after_line(seed, digest)->0;
            let copied = seeded.after_line(copy, digest)->0;
            assert(copied.tables =~= part.tables);
            assert(copied.sequences =~= part.sequences);
            assert(copied.baseline->0 =~= part.baseline->0);
            assert(copied =~= part);
        } else {
            assert(lines =~= before.push(create));
            assert(created.tables =~= part.tables);
            assert(created.sequences =~= part.sequences);
            assert(created.baseline->0 =~= part.baseline->0);
            assert(created =~= part);
        }
    }
}

/// The schema makes an empty database the template.
pub proof fn law_schema_makes_template(digest: spec_fn(Seq<char>) -> Seq<char>)
    ensures
        Store::empty().after_statement(Statement::ApplySchema, digest) == Some(template(digest)),
{
    lemma_definitions(TABLES as nat, digest);
    lemma_lines_push(
        Store::empty(),
        schema::first_lines() + schema::define_tables(TABLES as nat),
        Line::DefineRestore { steps: schema::restore_steps() },
        digest,
    );
}

/// What the template holds. Only seeded tables hold rows, and these have the
/// first keys. Their copies hold the same rows. The next key that a sequence
/// gives is the one behind the seed rows, or the first.
pub proof fn law_template_holds_seed_rows(table: int, digest: spec_fn(Seq<char>) -> Seq<char>)
    requires
        0 <= table < TABLES,
    ensures
        template(digest).scratch == Some(Map::<int, Seq<char>>::empty()),
        template(digest).tables.contains_key(table),
        table < SEEDED_TABLES ==> forall|id: int| #[trigger]
            template(digest).tables[table].contains_key(id) <==> 1 <= id <= 4,
        table >= SEEDED_TABLES ==> template(digest).tables[table] == Map::<int, Seq<char>>::empty(),
        template(digest).baseline is Some,
        (template(digest).baseline->0).contains_key(table) <==> table < SEEDED_TABLES,
        table < SEEDED_TABLES ==> (template(digest).baseline->0)[table]
            == template(digest).tables[table],
        template(digest).sequences.contains_key(table) <==> table < SEQUENCES,
        table < SEEDED_TABLES ==> template(digest).sequences[table].next() == 5,
        SEEDED_TABLES <= table < SEQUENCES ==> template(digest).sequences[table].next() == 1,
{
}

proof fn lemma_emptied(store: Store, tables: nat, digest: spec_fn(Seq<char>) -> Seq<char>)
    requires
        store.of_template(digest),
        tables <= TABLES,
    ensures
        store.after_steps(schema::first_steps() + schema::empty_tables(tables)) == Some(
            Store {
                scratch: Some(Map::empty()),
                tables: Map::new(
                    |table: int| 0 <= table < TABLES,
                    |table: int|
                        if table < tables {
                            Map::<int, Seq<char>>::empty()
                        } else {
                            store.tables[table]
                        },
                ),
                ..store
            },
        ),
    decreases tables,
{
    let steps = schema::first_steps() + schema::empty_tables(tables);
    let content = Map::new(
        |table: int| 0 <= table < TABLES,
        |table: int|
            if table < tables {
                Map::<int, Seq<char>>::empty()
            } else {
                store.tables[table]
            },
    );
    if tables == 0 {
        reveal_with_fuel(Store::after_steps, 3);
        assert(steps =~= schema::first_steps());
        assert(steps.drop_last() =~= seq![Step::TriggersOff]);
        assert(steps.drop_last().drop_last() =~= seq![]);
        assert(store.tables =~= content);
    } else {
        let table = tables - 1;
        let before = schema::first_steps() + schema::empty_tables(table as nat);
        let step = Step::EmptyTable { table };
        lemma_emptied(store, table as nat, digest);
        lemma_steps_push(store, before, step);
        assert(steps =~= before.push(step));
        let emptied = store.after_steps(before)->0;
        assert(emptied.after_step(step)->0.tables =~= content);
    }
}

proof fn lemma_refilled(store: Store, tables: nat, digest: spec_fn(Seq<char>) -> Seq<char>)
    requires
        store.of_template(digest),
        tables <= SEEDED_TABLES,
    ensures
        store.after_steps(
            schema::first_steps() + schema::empty_tables(TABLES as nat) + schema::refill_tables(
                tables,
            ),
        ) == Some(
            Store {
                scratch: Some(Map::empty()),
                tables: Map::new(
                    |table: int| 0 <= table < TABLES,
                    |table: int|
                        if table < tables {
                            template_rows(table, digest)
                        } else {
                            Map::empty()
                        },
                ),
                ..store
            },
        ),
    decreases tables,
{
    let first = schema::first_steps() + schema::empty_tables(TABLES as nat);
    let steps = first + schema::refill_tables(tables);
    let content = Map::new(
        |table: int| 0 <= table < TABLES,
        |table: int|
            if table < tables {
                template_rows(table, digest)
            } else {
                Map::empty()
            },
    );
    if tables == 0 {
        lemma_emptied(store, TABLES as nat, digest);
        assert(steps =~= first);
        assert(store.after_steps(steps)->0.tables =~= content);
    } else {
        let table = tables - 1;
        let before = first + schema::refill_tables(table as nat);
        let step = Step::RefillTable { table };
        lemma_refilled(store, table as nat, digest);
        lemma_steps_push(store, before, step);
        assert(steps =~= before.push(step));
        let partly = store.after_steps(before)->0;
        assert(partly.tables[table] =~= Map::empty());
        assert(partly.tables[table].union_prefer_right(template_rows(table, digest))
            =~= template_rows(table, digest));
        assert(partly.after_step(step)->0.tables =~= content);
    }
}

proof fn lemma_reset(store: Store, tables: nat, digest: spec_fn(Seq<char>) -> Seq<char>)
    requires
        store.of_template(digest),
        tables <= SEQUENCES,
    ensures
        store.after_steps(
            schema::first_steps() + schema::empty_tables(TABLES as nat) + schema::refill_tables(
                SEEDED_TABLES as nat,
            ) + schema::reset_sequences(tables),
        ) == Some(
            Store {
                scratch: Some(Map::empty()),
                tables: template(digest).tables,
                sequences: Map::new(
                    |table: int| 0 <= table < SEQUENCES,
                    |table: int|
                        if table < tables {
                            template_sequence(table)
                        } else {
                            store.sequences[table]
                        },
                ),
                ..store
            },
        ),
    decreases tables,
{
    let first = schema::first_steps() + schema::empty_tables(TABLES as nat)
        + schema::refill_tables(SEEDED_TABLES as nat);
    let steps = first + schema::reset_sequences(tables);
    let content = Map::new(
        |table: int| 0 <= table < SEQUENCES,
        |table: int|
            if table < tables {
                template_sequence(table)
            } else {
                store.sequences[table]
            },
    );
    if tables == 0 {
        lemma_refilled(store, SEEDED_TABLES as nat, digest);
        assert(steps =~= first);
        assert(store.after_steps(steps)->0.tables =~= template(digest).tables);
        assert(store.sequences =~= content);
    } else {
        let table = tables - 1;
        let before = first + schema::reset_sequences(table as nat);
        let step = schema::reset_sequence(table);
        lemma_reset(store, table as nat, digest);
        lemma_steps_push(store, before, step);
        assert(steps =~= before.push(step));
        let partly = store.after_steps(before)->0;
        assert(partly.after_step(step)->0.sequences =~= content);
    }
}

/// Whatever was done to the rows and the sequences of a copy of the template,
/// the restore procedure makes it the template again: its rows, the numbers that
/// its sequences give next, and its baseline.
pub proof fn law_restore_gives_template_back(
    store: Store,
    digest: spec_fn(Seq<char>) -> Seq<char>,
)
    requires
        store.of_template(digest),
    ensures
        store.after_statement(Statement::Restore, digest) == Some(template(digest)),
{
    lemma_reset(store, SEQUENCES as nat, digest);
    let steps = schema::first_steps() + schema::empty_tables(TABLES as nat)
        + schema::refill_tables(SEEDED_TABLES as nat) + schema::reset_sequences(SEQUENCES as nat);
    lemma_steps_push(store, steps, Step::TriggersOn);
    let after = store.after_statement(Statement::Restore, digest)->0;
    assert(after.sequences =~= template(digest).sequences);
}

proof fn lemma_statements_concat(
    store: Store,
    first: Seq<Statement<Seq<char>>>,
    second: Seq<Statement<Seq<char>>>,
    digest: spec_fn(Seq<char>) -> Seq<char>,
)
    ensures
        store.after_statements(first + second, digest) == (match store.after_statements(
            first,
            digest,
        ) {
            Some(before) => before.after_statements(second, digest),
            None => None,
        }),
    decreases second.len(),
{
    if second.len() == 0 {
        assert(first + second =~= first);
    } else {
        lemma_statements_concat(store, first, second.drop_last(), digest);
        assert((first + second).drop_last() =~= first + second.drop_last());
    }
}

/// Where all statements are accepted, so are the first of them, and what they
/// leave is still a copy of the template.
pub proof fn lemma_statements_take(
    store: Store,
    statements: Seq<Statement<Seq<char>>>,
    at: int,
    digest: spec_fn(Seq<char>) -> Seq<char>,
)
    requires
        store.of_template(digest),
        store.after_statements(statements, digest) is Some,
        0 <= at <= statements.len(),
        forall|i: int|
            0 <= i < statements.len() ==> (#[trigger] statements[i]) !is ApplySchema
                && statements[i] !is Restore,
    ensures
        store.after_statements(statements.take(at), digest) is Some,
        (store.after_statements(statements.take(at), digest)->0).of_template(digest),
    decreases at,
{
    assert(statements =~= statements.take(at) + statements.skip(at));
    lemma_statements_concat(store, statements.take(at), statements.skip(at), digest);
    if at > 0 {
        lemma_statements_take(store, statements, at - 1, digest);
        assert(statements.take(at).drop_last() =~= statements.take(at - 1));
        let before = store.after_statements(statements.take(at - 1), digest)->0;
        let after = store.after_statements(statements.take(at), digest)->0;
        assert(before.tables.dom() =~= after.tables.dom());
    }
}

proof fn lemma_three(
    store: Store,
    statements: Seq<Statement<Seq<char>>>,
    digest: spec_fn(Seq<char>) -> Seq<char>,
)
    requires
        statements.len() == 3,
    ensures
        store.after_statements(statements, digest) == (match store.after_statement(
            statements[0],
            digest,
        ) {
            Some(first) => match first.after_statement(statements[1], digest) {
                Some(second) => second.after_statement(statements[2], digest),
                None => None,
            },
            None => None,
        }),
{
    reveal_with_fuel(Store::after_statements, 4);
}

proof fn lemma_lookups(store: Store, queries: nat, digest: spec_fn(Seq<char>) -> Seq<char>)
    requires
        forall|table: int| 0 <= table < TABLES ==> store.tables.contains_key(table),
    ensures
        store.after_statements(Seq::new(queries, |query: int| workload::lookup(query)), digest)
            == Some(store),
    decreases queries,
{
    let statements = Seq::new(queries, |query: int| workload::lookup(query));
    if queries > 0 {
        let before = Seq::new((queries - 1) as nat, |query: int| workload::lookup(query));
        lemma_lookups(store, (queries - 1) as nat, digest);
        assert(statements.drop_last() =~= before);
        assert(statements.last() == workload::lookup(queries - 1));
    }
}

/// The database behind the two rows of a test.
pub open spec fn written(store: Store, id: i64, digest: spec_fn(Seq<char>) -> Seq<char>) -> Store {
    let payload = digest(text::signed_decimal(id as int));
    Store {
        scratch: Some((store.scratch->0).insert(id as int, payload)),
        tables: store.tables.insert(
            TABLES - 1,
            store.tables[TABLES - 1].insert(id as int, payload),
        ),
        ..store
    }
}

/// On a copy of the template a test passes exactly where the key of its row is
/// taken neither in the table for the tests' rows nor in the last numbered one.
/// It adds a row to each of the two, and a copy of the template stays one.
pub proof fn law_workload_needs_free_keys(
    store: Store,
    id: i64,
    digest: spec_fn(Seq<char>) -> Seq<char>,
)
    requires
        store.of_template(digest),
    ensures
        store.accepts(id, digest) <==> !(store.scratch->0).contains_key(id as int)
            && !store.tables[TABLES - 1].contains_key(id as int),
        !store.accepts(id, digest) ==> store.after_workload(id, digest) == store,
        store.accepts(id, digest) ==> Some(store.after_workload(id, digest)) == written(
            store,
            id,
            digest,
        ).after_statement(Statement::UpdateFirst { id }, digest),
        store.after_workload(id, digest).of_template(digest),
{
    let first = seq![
        Statement::Begin,
        Statement::InsertScratch { id },
        Statement::InsertLast { id },
    ];
    let lookups = Seq::new(workload::QUERIES_PER_TEST as nat, |query: int| workload::lookup(query));
    let last = seq![Statement::UpdateFirst { id }, Statement::CountScratch, Statement::Commit];
    lemma_three(store, first, digest);
    lemma_statements_concat(store, first + lookups, last, digest);
    lemma_statements_concat(store, first, lookups, digest);
    if !(store.scratch->0).contains_key(id as int) && !store.tables[TABLES - 1].contains_key(
        id as int,
    ) {
        let before = written(store, id, digest);
        assert(store.after_statements(first, digest) == Some(before));
        lemma_lookups(before, workload::QUERIES_PER_TEST as nat, digest);
        lemma_three(before, last, digest);
    }
    let after = store.after_workload(id, digest);
    assert(store.tables.dom().contains(TABLES - 1));
    assert(store.tables.dom().contains(0));
    assert(after.tables.dom() =~= store.tables.dom());
}

/// A test that writes the same row again is refused, and leaves what the first
/// one committed.
pub proof fn law_repeated_workload_is_refused(
    store: Store,
    id: i64,
    digest: spec_fn(Seq<char>) -> Seq<char>,
)
    requires
        store.of_template(digest),
        store.accepts(id, digest),
    ensures
        (store.after_workload(id, digest).scratch->0).contains_key(id as int),
        !store.after_workload(id, digest).accepts(id, digest),
        store.after_workload(id, digest).after_workload(id, digest) == store.after_workload(
            id,
            digest,
        ),
{
    law_workload_needs_free_keys(store, id, digest);
    law_workload_needs_free_keys(store.after_workload(id, digest), id, digest);
}

/// A restored database takes every test: any row, one that was written before
/// among them.
pub proof fn law_restored_database_takes_workload(
    store: Store,
    earlier: i64,
    id: i64,
    digest: spec_fn(Seq<char>) -> Seq<char>,
)
    requires
        store.of_template(digest),
    ensures
        store.after_workload(earlier, digest).after_statement(Statement::Restore, digest) == Some(
            template(digest),
        ),
        template(digest).of_template(digest),
        template(digest).accepts(id, digest),
{
    law_workload_needs_free_keys(store, earlier, digest);
    law_restore_gives_template_back(store.after_workload(earlier, digest), digest);
    law_workload_needs_free_keys(template(digest), id, digest);
}

}

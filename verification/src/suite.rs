//! The suite's tests, as source text: a function for each test.
use vstd::prelude::*;
use vstd::string::*;

use crate::run;
use crate::run::TestPath;
use crate::text;

verus! {

/// Tests that use a database.
pub const DATABASE_TESTS: usize = 1_600;

/// Tests that use none.
pub const CPU_TESTS: usize = 4_400;

/// The name of a database test: it tells the path that the test takes where the
/// suite is not ephemeral.
pub open spec fn database_test_name(index: int) -> Seq<char> {
    if run::path_of(false, index) == TestPath::Isolated {
        "database_isolated_"@ + text::padded(index as nat, 4)
    } else {
        "database_reusable_"@ + text::padded(index as nat, 4)
    }
}

/// The name of a test that uses no database.
pub open spec fn cpu_test_name(index: int) -> Seq<char> {
    "cpu_"@ + text::padded(index as nat, 4)
}

/// A test function: its name, and the function that it calls with its number.
pub open spec fn test_function(name: Seq<char>, callee: Seq<char>, index: int) -> Seq<char> {
    "#[test]\nfn "@ + name + "() { crate::"@ + callee + "("@ + text::decimal(index as nat)
        + "); }\n"@
}

pub open spec fn database_test(index: int) -> Seq<char> {
    test_function(database_test_name(index), "run_database_test"@, index)
}

pub open spec fn cpu_test(index: int) -> Seq<char> {
    test_function(cpu_test_name(index), "run_cpu_test"@, index)
}

/// All tests.
pub open spec fn suite() -> Seq<char> {
    text::repeat(DATABASE_TESTS as nat, |index: int| database_test(index)) + text::repeat(
        CPU_TESTS as nat,
        |index: int| cpu_test(index),
    )
}

fn push_database_test(out: &mut String, index: usize)
    ensures
        final(out)@ == old(out)@ + database_test(index as int),
{
    out.append("#[test]\nfn ");
    match run::test_path(false, index) {
        TestPath::Isolated => out.append("database_isolated_"),
        _ => out.append("database_reusable_"),
    }
    text::push_padded(out, index as u64, 4);
    out.append("() { crate::");
    out.append("run_database_test");
    out.append("(");
    text::push_decimal(out, index as u64);
    out.append("); }\n");
    assert(out@ =~= old(out)@ + database_test(index as int));
}

fn push_cpu_test(out: &mut String, index: usize)
    ensures
        final(out)@ == old(out)@ + cpu_test(index as int),
{
    out.append("#[test]\nfn ");
    out.append("cpu_");
    text::push_padded(out, index as u64, 4);
    out.append("() { crate::");
    out.append("run_cpu_test");
    out.append("(");
    text::push_decimal(out, index as u64);
    out.append("); }\n");
    assert(out@ =~= old(out)@ + cpu_test(index as int));
}

/// The source text of all tests.
pub fn suite_source() -> (source: String)
    ensures
        source@ == suite(),
{
    let mut source = String::new();
    let ghost database = |index: int| database_test(index);
    assert(source@ =~= text::repeat(0, database));
    let mut index: usize = 0;
    while index < DATABASE_TESTS
        invariant
            index <= DATABASE_TESTS,
            database == |index: int| database_test(index),
            source@ == text::repeat(index as nat, database),
        decreases DATABASE_TESTS - index,
    {
        push_database_test(&mut source, index);
        index = index + 1;
    }
    let ghost cpu = |index: int| cpu_test(index);
    let ghost before = source@;
    assert(source@ =~= before + text::repeat(0, cpu));
    index = 0;
    while index < CPU_TESTS
        invariant
            index <= CPU_TESTS,
            cpu == |index: int| cpu_test(index),
            source@ == before + text::repeat(index as nat, cpu),
        decreases CPU_TESTS - index,
    {
        push_cpu_test(&mut source, index);
        index = index + 1;
        assert(source@ =~= before + text::repeat(index as nat, cpu));
    }
    source
}

/// No two tests share a name, so that every one of them is run.
pub proof fn law_test_names_distinct(a: nat, b: nat)
    ensures
        database_test_name(a as int) == database_test_name(b as int) ==> a == b,
        cpu_test_name(a as int) == cpu_test_name(b as int) ==> a == b,
        database_test_name(a as int) != cpu_test_name(b as int),
{
    reveal_strlit("database_isolated_");
    reveal_strlit("database_reusable_");
    reveal_strlit("cpu_");
    text::law_padded_reads_back(a, 4);
    text::law_padded_reads_back(b, 4);
    assert(database_test_name(a as int).skip(18) =~= text::padded(a, 4));
    assert(database_test_name(b as int).skip(18) =~= text::padded(b, 4));
    assert(cpu_test_name(a as int).skip(4) =~= text::padded(a, 4));
    assert(cpu_test_name(b as int).skip(4) =~= text::padded(b, 4));
    assert(database_test_name(a as int)[0] == 'd');
    assert(cpu_test_name(b as int)[0] == 'c');
}

/// The name of a database test tells its path: the filters on the two kinds of
/// names part the database tests, and one in twelve is isolated. The last
/// character of every name is the last digit of the test's number, so that a
/// filter on it takes one test in ten of each kind.
pub proof fn law_test_names_tell_path(index: nat)
    ensures
        text::starts_with(database_test_name(index as int), "database_isolated_"@) <==> index % 12
            == 0,
        text::starts_with(database_test_name(index as int), "database_reusable_"@) <==> index % 12
            != 0,
        run::path_of(false, index as int) == if index % 12 == 0 {
            TestPath::Isolated
        } else {
            TestPath::Reusable
        },
        database_test_name(index as int).last() == text::digit(index % 10),
        cpu_test_name(index as int).last() == text::digit(index % 10),
{
    reveal_strlit("database_isolated_");
    reveal_strlit("database_reusable_");
    text::law_padded_reads_back(index, 4);
    let name = database_test_name(index as int);
    assert(name[9] == if index % 12 == 0 {
        'i'
    } else {
        'r'
    });
    assert("database_isolated_"@[9] == 'i');
    assert("database_reusable_"@[9] == 'r');
}

/// Every test stands in the suite.
pub proof fn law_suite_holds_tests(index: int)
    ensures
        0 <= index < DATABASE_TESTS ==> text::occurs(database_test(index), suite()),
        0 <= index < CPU_TESTS ==> text::occurs(cpu_test(index), suite()),
{
    let none = Seq::<char>::empty();
    let database = |index: int| database_test(index);
    let cpu = |index: int| cpu_test(index);
    let first = text::repeat(DATABASE_TESTS as nat, database);
    let second = text::repeat(CPU_TESTS as nat, cpu);
    if 0 <= index < DATABASE_TESTS {
        text::lemma_piece_occurs(DATABASE_TESTS as nat, database, index);
        text::lemma_occurs_within(database(index), none, first, second);
        assert(suite() =~= none + first + second);
    }
    if 0 <= index < CPU_TESTS {
        text::lemma_piece_occurs(CPU_TESTS as nat, cpu, index);
        text::lemma_occurs_within(cpu(index), first, second, none);
        assert(suite() =~= first + second + none);
    }
}

/// How many of the first numbers have a property.
pub open spec fn count(n: nat, holds: spec_fn(int) -> bool) -> nat
    decreases n,
{
    if n == 0 {
        0
    } else {
        count((n - 1) as nat, holds) + if holds(n - 1) {
            1nat
        } else {
            0nat
        }
    }
}

/// The name is in the sample of one test in ten: it ends in a number whose last
/// digit is zero.
pub open spec fn sampled(name: Seq<char>) -> bool {
    exists|before: Seq<char>, digits: Seq<char>|
        text::all_digits(digits) && name == #[trigger] (before + "_"@ + digits + "0"@)
}

proof fn lemma_sampled(kind: Seq<char>, index: nat)
    ensures
        sampled(kind + "_"@ + text::padded(index, 4)) <==> index % 10 == 0,
{
    reveal_strlit("_");
    reveal_strlit("0");
    let number = text::padded(index, 4);
    let name = kind + "_"@ + number;
    text::law_padded_reads_back(index, 4);
    if sampled(name) {
        let (before, digits) = choose|before: Seq<char>, digits: Seq<char>|
            text::all_digits(digits) && name == #[trigger] (before + "_"@ + digits + "0"@);
        assert(name.last() == '0');
        assert(name.last() == number.last());
    }
    if index % 10 == 0 {
        assert(number.last() == '0');
        assert(text::all_digits(number.drop_last()));
        assert(name =~= kind + "_"@ + number.drop_last() + "0"@);
    }
}

/// The sample takes the tests whose number ends in zero, of each kind.
pub proof fn law_sample_takes_every_tenth(index: nat)
    ensures
        sampled(database_test_name(index as int)) <==> index % 10 == 0,
        sampled(cpu_test_name(index as int)) <==> index % 10 == 0,
{
    reveal_strlit("_");
    reveal_strlit("database_isolated");
    reveal_strlit("database_reusable");
    reveal_strlit("cpu");
    reveal_strlit("database_isolated_");
    reveal_strlit("database_reusable_");
    reveal_strlit("cpu_");
    assert("database_isolated_"@ =~= "database_isolated"@ + "_"@);
    assert("database_reusable_"@ =~= "database_reusable"@ + "_"@);
    assert("cpu_"@ =~= "cpu"@ + "_"@);
    lemma_sampled("database_isolated"@, index);
    lemma_sampled("database_reusable"@, index);
    lemma_sampled("cpu"@, index);
}

proof fn lemma_count_tenths(n: nat, holds: spec_fn(int) -> bool)
    requires
        forall|i: int| 0 <= i < n ==> (#[trigger] holds(i) <==> i % 10 == 0),
    ensures
        count(n, holds) == (n + 9) / 10,
    decreases n,
{
    if n > 0 {
        lemma_count_tenths((n - 1) as nat, holds);
        assert(holds(n - 1) <==> (n - 1) % 10 == 0);
    }
}

proof fn lemma_count_twelfths(n: nat, holds: spec_fn(int) -> bool, fails: spec_fn(int) -> bool)
    requires
        forall|i: int| 0 <= i < n ==> (#[trigger] holds(i) <==> i % 12 == 0),
        forall|i: int| 0 <= i < n ==> (#[trigger] fails(i) <==> i % 12 != 0),
    ensures
        count(n, holds) == (n + 11) / 12,
        count(n, fails) == n - (n + 11) / 12,
    decreases n,
{
    if n > 0 {
        lemma_count_twelfths((n - 1) as nat, holds, fails);
        assert(holds(n - 1) <==> (n - 1) % 12 == 0);
        assert(fails(n - 1) <==> (n - 1) % 12 != 0);
    }
}

/// How many tests there are: of all, and of each kind of database test, by name
/// and by path.
pub proof fn law_suite_counts()
    ensures
        DATABASE_TESTS + CPU_TESTS == 6_000,
        count(
            DATABASE_TESTS as nat,
            |index: int| text::starts_with(database_test_name(index), "database_isolated_"@),
        ) == 134,
        count(
            DATABASE_TESTS as nat,
            |index: int| text::starts_with(database_test_name(index), "database_reusable_"@),
        ) == 1_466,
        count(
            DATABASE_TESTS as nat,
            |index: int| run::path_of(false, index) == TestPath::Isolated,
        ) == 134,
        count(
            DATABASE_TESTS as nat,
            |index: int| run::path_of(false, index) == TestPath::Reusable,
        ) == 1_466,
{
    let isolated = |index: int|
        text::starts_with(database_test_name(index), "database_isolated_"@);
    let reusable = |index: int|
        text::starts_with(database_test_name(index), "database_reusable_"@);
    assert forall|i: int| 0 <= i < DATABASE_TESTS implies (#[trigger] isolated(i) <==> i % 12
        == 0) by {
        law_test_names_tell_path(i as nat);
    }
    assert forall|i: int| 0 <= i < DATABASE_TESTS implies (#[trigger] reusable(i) <==> i % 12
        != 0) by {
        law_test_names_tell_path(i as nat);
    }
    lemma_count_twelfths(DATABASE_TESTS as nat, isolated, reusable);
    lemma_count_twelfths(
        DATABASE_TESTS as nat,
        |index: int| run::path_of(false, index) == TestPath::Isolated,
        |index: int| run::path_of(false, index) == TestPath::Reusable,
    );
}

/// How many tests the sample of one in ten has: of all, and of each kind.
pub proof fn law_sample_counts()
    ensures
        count(DATABASE_TESTS as nat, |index: int| sampled(database_test_name(index))) == 160,
        count(CPU_TESTS as nat, |index: int| sampled(cpu_test_name(index))) == 440,
        count(DATABASE_TESTS as nat, |index: int| sampled(database_test_name(index))) + count(
            CPU_TESTS as nat,
            |index: int| sampled(cpu_test_name(index)),
        ) == 600,
{
    let database = |index: int| sampled(database_test_name(index));
    let cpu = |index: int| sampled(cpu_test_name(index));
    assert forall|i: int| 0 <= i < DATABASE_TESTS implies (#[trigger] database(i) <==> i % 10
        == 0) by {
        law_sample_takes_every_tenth(i as nat);
    }
    assert forall|i: int| 0 <= i < CPU_TESTS implies (#[trigger] cpu(i) <==> i % 10 == 0) by {
        law_sample_takes_every_tenth(i as nat);
    }
    lemma_count_tenths(DATABASE_TESTS as nat, database);
    lemma_count_tenths(CPU_TESTS as nat, cpu);
}

/// A test in the suite's text: a function that calls the suite's own with the
/// test's number. The number stands in the name too, with four digits at least,
/// and one database test in twelve, from the first on, is called isolated.
pub proof fn law_tests_spelled_out(index: nat)
    ensures
        index % 12 == 0 ==> database_test(index as int) == "#[test]\nfn "@ + (
        "database_isolated_"@ + text::padded(index, 4)) + "() { crate::"@ + "run_database_test"@
            + "("@ + text::decimal(index) + "); }\n"@,
        index % 12 != 0 ==> database_test(index as int) == "#[test]\nfn "@ + (
        "database_reusable_"@ + text::padded(index, 4)) + "() { crate::"@ + "run_database_test"@
            + "("@ + text::decimal(index) + "); }\n"@,
        cpu_test(index as int) == "#[test]\nfn "@ + ("cpu_"@ + text::padded(index, 4))
            + "() { crate::"@ + "run_cpu_test"@ + "("@ + text::decimal(index) + "); }\n"@,
{
}

/// The suite is its database tests in order, and behind them the others in order.
pub proof fn law_suite_in_order()
    ensures
        DATABASE_TESTS == 1_600,
        CPU_TESTS == 4_400,
        suite() == text::repeat(1_600, |index: int| database_test(index)) + text::repeat(
            4_400,
            |index: int| cpu_test(index),
        ),
{
}

}

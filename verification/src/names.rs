//! The names, keys and row numbers that keep runs apart from one another.
use vstd::prelude::*;
use vstd::string::*;

use crate::text;

verus! {

/// The database that every other database of the suite is a copy of.
pub const TEMPLATE_DB: &'static str = "repro_template";

/// The upper half of every advisory lock key of the suite.
pub const LOCK_SPACE: i64 = 0x5250_524f_0000_0000;

/// The first letters of every pooled database's name.
pub open spec fn pool_prefix() -> Seq<char> {
    "repro_db_"@
}

/// The first letters of every isolated database's name.
pub open spec fn isolated_prefix() -> Seq<char> {
    "repro_isolated_"@
}

/// The name under which setup creates the pooled database of a worker.
pub open spec fn seed(worker: nat) -> Seq<char> {
    "repro_db_seed_"@ + text::padded(worker, 3)
}

/// The name under which a test holds a pooled database.
pub open spec fn leased(index: nat, pid: nat) -> Seq<char> {
    "repro_db_t"@ + text::decimal(index) + "_"@ + text::decimal(pid)
}

/// The name of the database that a test creates for itself.
pub open spec fn isolated(pid: nat, index: nat) -> Seq<char> {
    "repro_isolated_"@ + text::decimal(pid) + "_"@ + text::decimal(index)
}

/// The name on which the server creates a database by itself.
pub open spec fn ephemeral(pid: nat, index: nat) -> Seq<char> {
    "tdb_"@ + TEMPLATE_DB@ + "__"@ + text::decimal(pid) + "_"@ + text::decimal(index)
}

/// The name that makes the server know the template.
pub open spec fn warmup() -> Seq<char> {
    "tdb_"@ + TEMPLATE_DB@ + "__warmup"@
}

/// The advisory lock key of a database.
pub open spec fn lock(oid: i64) -> i64 {
    LOCK_SPACE | oid
}

/// The row that a test writes: the process in the upper half, the test in the
/// lower half.
pub open spec fn row(pid: u32, index: usize) -> i64 {
    ((pid as i64) << 32) | (index as i64)
}

/// The name under which setup creates the pooled database of a worker.
pub fn seed_name(worker: usize) -> (name: String)
    ensures
        name@ == seed(worker as nat),
{
    let mut name = "repro_db_seed_".to_owned();
    text::push_padded(&mut name, worker as u64, 3);
    name
}

/// The name under which a test holds a pooled database.
pub fn leased_name(index: usize, pid: u32) -> (name: String)
    ensures
        name@ == leased(index as nat, pid as nat),
{
    let mut name = "repro_db_t".to_owned();
    text::push_decimal(&mut name, index as u64);
    name.append("_");
    text::push_decimal(&mut name, pid as u64);
    name
}

/// The name of the database that a test creates for itself.
pub fn isolated_name(pid: u32, index: usize) -> (name: String)
    ensures
        name@ == isolated(pid as nat, index as nat),
{
    let mut name = "repro_isolated_".to_owned();
    text::push_decimal(&mut name, pid as u64);
    name.append("_");
    text::push_decimal(&mut name, index as u64);
    name
}

/// The name on which the server creates a database by itself.
pub fn ephemeral_name(pid: u32, index: usize) -> (name: String)
    ensures
        name@ == ephemeral(pid as nat, index as nat),
{
    let mut name = "tdb_".to_owned();
    name.append(TEMPLATE_DB);
    name.append("__");
    text::push_decimal(&mut name, pid as u64);
    name.append("_");
    text::push_decimal(&mut name, index as u64);
    name
}

/// The name that makes the server know the template.
pub fn warmup_name() -> (name: String)
    ensures
        name@ == warmup(),
{
    let mut name = "tdb_".to_owned();
    name.append(TEMPLATE_DB);
    name.append("__warmup");
    name
}

/// The advisory lock key of a database.
pub fn lock_key(oid: i64) -> (key: i64)
    ensures
        key == lock(oid),
{
    LOCK_SPACE | oid
}

/// The row that a test writes.
pub fn row_id(pid: u32, index: usize) -> (id: i64)
    ensures
        id == row(pid, index),
{
    ((pid as i64) << 32) | (index as i64)
}

/// Object identifiers are 32 bits wide: two databases never share a lock key,
/// and every key lies in the suite's own half of the key space.
pub proof fn law_lock_keys_distinct(a: i64, b: i64)
    requires
        0 <= a <= u32::MAX,
        0 <= b <= u32::MAX,
    ensures
        lock(a) == LOCK_SPACE + a,
        lock(a) == lock(b) ==> a == b,
{
    assert(0x5250_524f_0000_0000i64 | a == 0x5250_524f_0000_0000i64 + a) by (bit_vector)
        requires
            0 <= a <= 0xffff_ffff,
    ;
    assert(0x5250_524f_0000_0000i64 | b == 0x5250_524f_0000_0000i64 + b) by (bit_vector)
        requires
            0 <= b <= 0xffff_ffff,
    ;
}

/// Two tests write the same row only where they are the same test of the same
/// process.
pub proof fn law_rows_distinct(pid1: u32, index1: usize, pid2: u32, index2: usize)
    requires
        index1 <= u32::MAX,
        index2 <= u32::MAX,
        row(pid1, index1) == row(pid2, index2),
    ensures
        pid1 == pid2,
        index1 == index2,
{
    let a = index1 as u32;
    let b = index2 as u32;
    let x = index1 as i64;
    let y = index2 as i64;
    assert(x == a as i64 && y == b as i64);
    assert(pid1 == pid2 && a == b) by (bit_vector)
        requires
            (((pid1 as i64) << 32) | (a as i64)) == (((pid2 as i64) << 32) | (b as i64)),
    ;
}

/// The name needs no quotes: small letters, digits and underscores, a letter
/// first, and no more than the server keeps of a name.
pub open spec fn plain(name: Seq<char>) -> bool {
    &&& 0 < name.len() <= 63
    &&& 'a' <= name[0] <= 'z'
    &&& forall|i: int| 0 <= i < name.len() ==> plain_char(#[trigger] name[i])
}

pub open spec fn plain_char(c: char) -> bool {
    'a' <= c <= 'z' || text::is_digit(c) || c == '_'
}

/// Two numbers with a bar between them, behind a fixed text, can be read back.
proof fn lemma_two_numbers(prefix: Seq<char>, a1: nat, b1: nat, a2: nat, b2: nat)
    requires
        prefix + text::decimal(a1) + "_"@ + text::decimal(b1) == prefix + text::decimal(a2) + "_"@
            + text::decimal(b2),
    ensures
        a1 == a2,
        b1 == b2,
{
    reveal_strlit("_");
    text::law_decimal_reads_back(a1);
    text::law_decimal_reads_back(b1);
    text::law_decimal_reads_back(a2);
    text::law_decimal_reads_back(b2);
    let left = prefix + text::decimal(a1) + "_"@ + text::decimal(b1);
    let right = prefix + text::decimal(a2) + "_"@ + text::decimal(b2);
    let n = prefix.len() as int;
    assert(left.skip(n) =~= text::decimal(a1).push('_') + text::decimal(b1));
    assert(right.skip(n) =~= text::decimal(a2).push('_') + text::decimal(b2));
    text::lemma_digits_split(
        text::decimal(a1),
        text::decimal(b1),
        text::decimal(a2),
        text::decimal(b2),
        '_',
    );
}

/// Two tests hold pooled databases under the same name only where they are the
/// same test of the same process.
pub proof fn law_leased_names_distinct(index1: nat, pid1: nat, index2: nat, pid2: nat)
    requires
        leased(index1, pid1) == leased(index2, pid2),
    ensures
        index1 == index2,
        pid1 == pid2,
{
    lemma_two_numbers("repro_db_t"@, index1, pid1, index2, pid2);
}

/// Two tests create isolated databases of the same name only where they are
/// the same test of the same process.
pub proof fn law_isolated_names_distinct(pid1: nat, index1: nat, pid2: nat, index2: nat)
    requires
        isolated(pid1, index1) == isolated(pid2, index2),
    ensures
        pid1 == pid2,
        index1 == index2,
{
    lemma_two_numbers("repro_isolated_"@, pid1, index1, pid2, index2);
}

/// Two tests connect to ephemeral databases of the same name only where they
/// are the same test of the same process, and none connects to the database
/// that setup warms the server up with.
pub proof fn law_ephemeral_names_distinct(pid1: nat, index1: nat, pid2: nat, index2: nat)
    ensures
        ephemeral(pid1, index1) == ephemeral(pid2, index2) ==> pid1 == pid2 && index1 == index2,
        ephemeral(pid1, index1) != warmup(),
{
    let prefix = "tdb_"@ + TEMPLATE_DB@ + "__"@;
    if ephemeral(pid1, index1) == ephemeral(pid2, index2) {
        lemma_two_numbers(prefix, pid1, index1, pid2, index2);
    }
    reveal_strlit("__");
    reveal_strlit("__warmup");
    text::law_decimal_reads_back(pid1);
    let n = prefix.len() as int;
    assert(ephemeral(pid1, index1)[n] == text::decimal(pid1)[0]);
    assert(warmup()[n] == 'w');
}

/// Two workers never share a pooled database.
pub proof fn law_seed_names_distinct(worker1: nat, worker2: nat)
    requires
        seed(worker1) == seed(worker2),
    ensures
        worker1 == worker2,
{
    text::law_padded_reads_back(worker1, 3);
    text::law_padded_reads_back(worker2, 3);
    let n = "repro_db_seed_"@.len() as int;
    assert(seed(worker1).skip(n) =~= text::padded(worker1, 3));
    assert(seed(worker2).skip(n) =~= text::padded(worker2, 3));
}

/// The prefixes sort the names: a database is found in the pool under the name
/// that setup gave it and under the name that a lease gave it, and these two
/// never meet; an isolated database, the template and the databases that the
/// server creates are never found in the pool.
pub proof fn law_prefixes_sort_names(worker: nat, pid: nat, index: nat)
    ensures
        text::starts_with(seed(worker), pool_prefix()),
        text::starts_with(leased(index, pid), pool_prefix()),
        seed(worker) != leased(index, pid),
        text::starts_with(isolated(pid, index), isolated_prefix()),
        !text::starts_with(isolated(pid, index), pool_prefix()),
        !text::starts_with(TEMPLATE_DB@, pool_prefix()),
        !text::starts_with(TEMPLATE_DB@, isolated_prefix()),
        !text::starts_with(ephemeral(pid, index), pool_prefix()),
        !text::starts_with(ephemeral(pid, index), isolated_prefix()),
        !text::starts_with(warmup(), pool_prefix()),
        !text::starts_with(warmup(), isolated_prefix()),
{
    reveal_strlit("repro_db_");
    reveal_strlit("repro_isolated_");
    reveal_strlit("repro_db_seed_");
    reveal_strlit("repro_db_t");
    reveal_strlit("repro_template");
    reveal_strlit("tdb_");
    assert(seed(worker)[9] == 's');
    assert(leased(index, pid)[9] == 't');
    assert(isolated(pid, index)[6] == 'i');
    assert(pool_prefix()[6] == 'd');
    assert(isolated_prefix()[6] == 'i');
    assert(TEMPLATE_DB@[6] == 't');
    assert(ephemeral(pid, index)[0] == 't');
    assert(warmup()[0] == 't');
    assert(pool_prefix()[0] == 'r');
    assert(isolated_prefix()[0] == 'r');
}

proof fn lemma_number_len(n: nat)
    ensures
        n <= u32::MAX ==> text::decimal(n).len() <= 10,
        n <= u64::MAX ==> text::decimal(n).len() <= 20,
{
    assert(vstd::arithmetic::power::pow(10, 10) == 10_000_000_000) by {
        reveal(vstd::arithmetic::power::pow);
        reveal_with_fuel(vstd::arithmetic::power::pow, 21);
    }
    assert(vstd::arithmetic::power::pow(10, 20) == 100_000_000_000_000_000_000) by {
        reveal(vstd::arithmetic::power::pow);
        reveal_with_fuel(vstd::arithmetic::power::pow, 21);
    }
    if n <= u32::MAX {
        text::lemma_decimal_len(n, 10);
    }
    if n <= u64::MAX {
        text::lemma_decimal_len(n, 20);
    }
}

/// Every name of the suite means the same with quotes and without, and the
/// server keeps all of it.
pub proof fn law_names_plain(worker: usize, pid: u32, index: usize)
    ensures
        plain(TEMPLATE_DB@),
        plain(seed(worker as nat)),
        plain(leased(index as nat, pid as nat)),
        plain(isolated(pid as nat, index as nat)),
        plain(ephemeral(pid as nat, index as nat)),
        plain(warmup()),
{
    reveal_strlit("repro_db_seed_");
    reveal_strlit("repro_db_t");
    reveal_strlit("repro_isolated_");
    reveal_strlit("repro_template");
    reveal_strlit("tdb_");
    reveal_strlit("__");
    reveal_strlit("__warmup");
    reveal_strlit("_");
    text::law_decimal_reads_back(pid as nat);
    text::law_decimal_reads_back(index as nat);
    text::law_decimal_reads_back(worker as nat);
    text::law_padded_reads_back(worker as nat, 3);
    lemma_number_len(pid as nat);
    lemma_number_len(index as nat);
    lemma_number_len(worker as nat);
}

/// The names, letter by letter: a fixed text and the numbers that tell the
/// database apart.
pub proof fn law_names_spelled_out(worker: nat, pid: nat, index: nat)
    ensures
        TEMPLATE_DB@ == "repro_template"@,
        pool_prefix() == "repro_db_"@,
        isolated_prefix() == "repro_isolated_"@,
        seed(worker) == "repro_db_seed_"@ + text::padded(worker, 3),
        leased(index, pid) == "repro_db_t"@ + text::decimal(index) + "_"@ + text::decimal(pid),
        isolated(pid, index) == "repro_isolated_"@ + text::decimal(pid) + "_"@ + text::decimal(
            index,
        ),
        ephemeral(pid, index) == "tdb_"@ + "repro_template"@ + "__"@ + text::decimal(pid) + "_"@
            + text::decimal(index),
        warmup() == "tdb_"@ + "repro_template"@ + "__warmup"@,
{
}

/// The bits of a lock key are those of the suite's mark and those of the
/// database's identifier; of an identifier of the server's, the two halves stand
/// side by side.
pub proof fn law_lock_key_bits(oid: i64)
    ensures
        lock(oid) == 0x5250_524f_0000_0000i64 | oid,
        0 <= oid <= u32::MAX ==> lock(oid) == 0x5250_524f_0000_0000 + oid,
{
    if 0 <= oid <= u32::MAX {
        law_lock_keys_distinct(oid, oid);
    }
}

/// A row's number holds the process above its lower 32 bits and the test in them.
pub proof fn law_row_number(pid: u32, index: usize)
    ensures
        row(pid, index) == ((pid as i64) << 32) | (index as i64),
        index <= u32::MAX && pid <= i32::MAX ==> row(pid, index) == pid * 0x1_0000_0000 + index,
        index <= u32::MAX && pid > i32::MAX ==> row(pid, index) == pid * 0x1_0000_0000 + index
            - 0x1_0000_0000_0000_0000,
{
    if index <= u32::MAX {
        let a = index as u32;
        assert(index as i64 == a as i64);
        if pid <= i32::MAX {
            assert((((pid as i64) << 32) | (a as i64)) == pid * 0x1_0000_0000 + a) by (bit_vector)
                requires
                    pid <= 0x7fff_ffff,
            ;
        } else {
            assert((((pid as i64) << 32) | (a as i64)) == pid * 0x1_0000_0000 + a
                - 0x1_0000_0000_0000_0000) by (bit_vector)
                requires
                    pid > 0x7fff_ffff,
            ;
        }
    }
}

}

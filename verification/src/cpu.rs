//! The test that needs no database: a fixed amount of arithmetic.
use vstd::prelude::*;

verus! {

/// What a test's number is added to.
pub const CPU_SEED: u64 = 0x9e37_79b9_7f4a_7c15;

/// Rounds of one test.
pub const CPU_ROUNDS: u32 = 20_000;

/// The documentation of `std::hint::black_box`: it is an identity function,
/// which the optimizer is asked to know nothing of.
pub assume_specification<T>[ std::hint::black_box::<T> ](dummy: T) -> (result: T)
    ensures
        result == dummy,
;

/// `x` with its bits shifted up by `n` and added to it without carry.
pub open spec fn mixed_up(x: u64, n: u64) -> u64 {
    x ^ (x << n)
}

/// `x` with its bits shifted down by `n` and added to it without carry.
pub open spec fn mixed_down(x: u64, n: u64) -> u64 {
    x ^ (x >> n)
}

/// One round of the generator.
pub open spec fn round(x: u64) -> u64 {
    mixed_up(mixed_down(mixed_up(x, 13), 7), 17)
}

/// A number of rounds.
pub open spec fn rounds(x: u64, n: nat) -> u64
    decreases n,
{
    if n == 0 {
        x
    } else {
        round(rounds(x, (n - 1) as nat))
    }
}

/// What the test of this number arrives at.
pub open spec fn cpu_state(index: nat) -> u64 {
    rounds((CPU_SEED + index) as u64, CPU_ROUNDS as nat)
}

/// Runs the test of this number, and gives what it arrives at.
pub fn run_cpu_test(index: usize) -> (state: u64)
    requires
        CPU_SEED + index <= u64::MAX,
    ensures
        state == cpu_state(index as nat),
{
    let mut state: u64 = index as u64 + CPU_SEED;
    let ghost start = state;
    let mut done: u32 = 0;
    while done < CPU_ROUNDS
        invariant
            done <= CPU_ROUNDS,
            state == rounds(start, done as nat),
        decreases CPU_ROUNDS - done,
    {
        state = state ^ (state << 13u64);
        state = state ^ (state >> 7u64);
        state = state ^ (state << 17u64);
        done = done + 1;
    }
    std::hint::black_box(state)
}

proof fn lemma_round_injective(x: u64, y: u64)
    requires
        round(x) == round(y),
    ensures
        x == y,
{
    let a = mixed_up(x, 13);
    let b = mixed_up(y, 13);
    let c = mixed_down(a, 7);
    let d = mixed_down(b, 7);
    assert(c == d) by (bit_vector)
        requires
            c ^ (c << 17) == d ^ (d << 17),
    ;
    assert(a == b) by (bit_vector)
        requires
            a ^ (a >> 7) == b ^ (b >> 7),
    ;
    assert(x == y) by (bit_vector)
        requires
            x ^ (x << 13) == y ^ (y << 13),
    ;
}

proof fn lemma_rounds_injective(x: u64, y: u64, n: nat)
    requires
        rounds(x, n) == rounds(y, n),
    ensures
        x == y,
    decreases n,
{
    if n > 0 {
        lemma_round_injective(rounds(x, (n - 1) as nat), rounds(y, (n - 1) as nat));
        lemma_rounds_injective(x, y, (n - 1) as nat);
    }
}

proof fn lemma_rounds_of_zero(n: nat)
    ensures
        rounds(0, n) == 0,
    decreases n,
{
    if n > 0 {
        lemma_rounds_of_zero((n - 1) as nat);
        assert(0u64 ^ (0u64 << 13) == 0) by (bit_vector);
        assert(0u64 ^ (0u64 >> 7) == 0) by (bit_vector);
        assert(0u64 ^ (0u64 << 17) == 0) by (bit_vector);
    }
}

/// No two tests arrive at the same number, and none at zero, where every
/// further round would stay.
pub proof fn law_cpu_states_distinct(a: nat, b: nat)
    requires
        CPU_SEED + a <= u64::MAX,
        CPU_SEED + b <= u64::MAX,
    ensures
        cpu_state(a) == cpu_state(b) ==> a == b,
        cpu_state(a) != 0,
{
    let x = (CPU_SEED + a) as u64;
    let y = (CPU_SEED + b) as u64;
    if cpu_state(a) == cpu_state(b) {
        lemma_rounds_injective(x, y, CPU_ROUNDS as nat);
    }
    lemma_rounds_of_zero(CPU_ROUNDS as nat);
    if cpu_state(a) == 0 {
        lemma_rounds_injective(x, 0, CPU_ROUNDS as nat);
    }
}

/// What a test computes: it starts at its number on top of a fixed one, and a
/// further round shifts the bits by 13 up, 7 down and 17 up and adds them each
/// time without carry; the last round is the twenty-thousandth.
pub proof fn law_cpu_rounds(x: u64, n: nat, index: nat)
    requires
        0x9e37_79b9_7f4a_7c15 + index <= u64::MAX,
    ensures
        rounds(x, 0) == x,
        ({
            let a = rounds(x, n);
            let b = a ^ (a << 13u64);
            let c = b ^ (b >> 7u64);
            rounds(x, n + 1) == c ^ (c << 17u64)
        }),
        cpu_state(index) == rounds((0x9e37_79b9_7f4a_7c15 + index) as u64, 20_000),
{
}

}

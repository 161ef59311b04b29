//! Small integer calculators: factorial and Fibonacci.

use vstd::prelude::*;

verus! {

/// `n!` as a mathematical function.
pub open spec fn spec_factorial(n: nat) -> nat
    decreases n,
{
    if n <= 1 {
        1
    } else {
        n * spec_factorial((n - 1) as nat)
    }
}

/// The Fibonacci sequence 0, 1, 1, 2, 3, 5, ...
pub open spec fn spec_fib(n: nat) -> nat
    decreases n,
{
    if n == 0 {
        0
    } else if n == 1 {
        1
    } else {
        spec_fib((n - 1) as nat) + spec_fib((n - 2) as nat)
    }
}

/// The pair `(fib(n), fib(n + 1))`, computed with linear recursion so that
/// concrete values are cheap to evaluate.
spec fn fib_pair(n: nat) -> (nat, nat)
    decreases n,
{
    if n == 0 {
        (0, 1)
    } else {
        let (a, b) = fib_pair((n - 1) as nat);
        (b, a + b)
    }
}

proof fn lemma_fib_pair(n: nat)
    ensures
        fib_pair(n) == (spec_fib(n), spec_fib(n + 1)),
    decreases n,
{
    if n > 0 {
        lemma_fib_pair((n - 1) as nat);
    }
}

proof fn lemma_factorial_monotonic(i: nat, j: nat)
    requires
        i <= j,
    ensures
        spec_factorial(i) <= spec_factorial(j),
    decreases j - i,
{
    if i < j {
        lemma_factorial_monotonic(i, (j - 1) as nat);
        let f = spec_factorial((j - 1) as nat);
        assert(f <= j * f) by (nonlinear_arith)
            requires
                1 <= j,
                0 <= f,
        ;
    }
}

proof fn lemma_fib_monotonic(i: nat, j: nat)
    requires
        i <= j,
    ensures
        spec_fib(i) <= spec_fib(j),
    decreases j - i,
{
    if i < j {
        lemma_fib_monotonic(i, (j - 1) as nat);
    }
}

#[verifier::rlimit(60)]
proof fn lemma_fib_93_value()
    ensures
        spec_fib(93) == 12200160415121876738,
{
    lemma_fib_pair(92);
    reveal_with_fuel(fib_pair, 11);
    assert(fib_pair(10) == (55nat, 89nat));
    assert(fib_pair(20) == (6765nat, 10946nat));
    assert(fib_pair(30) == (832040nat, 1346269nat));
    assert(fib_pair(40) == (102334155nat, 165580141nat));
    assert(fib_pair(50) == (12586269025nat, 20365011074nat));
    assert(fib_pair(60) == (1548008755920nat, 2504730781961nat));
    assert(fib_pair(70) == (190392490709135nat, 308061521170129nat));
    assert(fib_pair(80) == (23416728348467685nat, 37889062373143906nat));
    assert(fib_pair(90) == (2880067194370816120nat, 4660046610375530309nat));
    assert(fib_pair(92) == (7540113804746346429nat, 12200160415121876738nat));
}

/// The factorial of `num`; `20!` is the largest factorial a `u64` holds.
pub fn factorial(num: u64) -> (r: u64)
    requires
        num <= 20,
    ensures
        r == spec_factorial(num as nat),
    decreases num,
{
    if num <= 1 {
        1
    } else {
        let sub = factorial(num - 1);
        proof {
            lemma_factorial_monotonic(num as nat, 20);
            reveal_with_fuel(spec_factorial, 21);
            assert(spec_factorial(20) == 2432902008176640000);
            assert(sub * num == num * sub) by (nonlinear_arith);
        }
        sub * num
    }
}

/// The `n`-th Fibonacci number; `fib(92)` is the largest that a `u64`
/// holds along the iteration.
pub fn fibonacci(n: u64) -> (r: u64)
    requires
        n <= 92,
    ensures
        r == spec_fib(n as nat),
{
    let mut a: u64 = 1;
    let mut b: u64 = 0;
    let mut count: u64 = 0;
    while count < n
        invariant
            count <= n,
            n <= 92,
            a == spec_fib((count + 1) as nat),
            b == spec_fib(count as nat),
        decreases n - count,
    {
        proof {
            lemma_fib_monotonic((count + 2) as nat, 93);
            lemma_fib_93_value();
        }
        let tmp = a + b;
        b = a;
        a = tmp;
        count += 1;
    }
    b
}

} // verus!

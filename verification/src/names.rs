//! Generated names: `v0`, `v1`, `v2`, ... and the supply that hands them out.

use vstd::hash_set::StringHashSet;
use vstd::prelude::*;
use vstd::string::StringExecFns;

verus! {

/// The decimal digits of `n`, most significant first, without leading zeros.
pub open spec fn digits(n: nat) -> Seq<u8>
    decreases n,
{
    if n < 10 {
        seq![n as u8]
    } else {
        digits(n / 10).push((n % 10) as u8)
    }
}

/// The number that a sequence of decimal digits, most significant first, stands for.
pub open spec fn digits_value(s: Seq<u8>) -> nat
    decreases s.len(),
{
    if s.len() == 0 {
        0
    } else {
        digits_value(s.drop_last()) * 10 + s.last() as nat
    }
}

/// The character that a decimal digit is written with.
pub open spec fn digit_char(d: u8) -> char {
    if d == 0 {
        '0'
    } else if d == 1 {
        '1'
    } else if d == 2 {
        '2'
    } else if d == 3 {
        '3'
    } else if d == 4 {
        '4'
    } else if d == 5 {
        '5'
    } else if d == 6 {
        '6'
    } else if d == 7 {
        '7'
    } else if d == 8 {
        '8'
    } else {
        '9'
    }
}

/// The text that a sequence of decimal digits is written as.
pub open spec fn digits_text(s: Seq<u8>) -> Seq<char> {
    s.map_values(|d: u8| digit_char(d))
}

/// `n` written in decimal.
pub open spec fn decimal(n: nat) -> Seq<char> {
    digits_text(digits(n))
}

/// The `n`-th generated name: the letter `v` followed by `n` in decimal.
pub open spec fn fresh_name(n: nat) -> Seq<char> {
    seq!['v'] + decimal(n)
}

/// `n` is the first index from `from` on whose generated name is not in `used`.
pub open spec fn is_first_unused(used: Set<Seq<char>>, from: nat, n: nat) -> bool {
    &&& from <= n
    &&& !used.contains(fresh_name(n))
    &&& forall|m: nat| from <= m < n ==> used.contains(#[trigger] fresh_name(m))
}

/// The first index from `from` on whose generated name is not in `used`.
pub open spec fn first_unused(used: Set<Seq<char>>, from: nat) -> nat {
    choose|n: nat| is_first_unused(used, from, n)
}

/// The digits of a number are decimal digits, there is at least one, and they
/// stand for that number.
pub proof fn digits_properties(n: nat)
    ensures
        digits(n).len() >= 1,
        forall|i: int| 0 <= i < digits(n).len() ==> #[trigger] digits(n)[i] < 10,
        digits_value(digits(n)) == n,
    decreases n,
{
    if n < 10 {
        assert(digits(n).drop_last() =~= Seq::<u8>::empty());
        assert(digits_value(digits(n).drop_last()) == 0);
    } else {
        digits_properties(n / 10);
        assert(digits(n).drop_last() =~= digits(n / 10));
    }
}

/// Distinct indices give distinct generated names.
pub proof fn fresh_name_injective(n: nat, m: nat)
    requires
        fresh_name(n) == fresh_name(m),
    ensures
        n == m,
{
    digits_properties(n);
    digits_properties(m);
    let a = digits(n);
    let b = digits(m);
    assert(fresh_name(n).len() == 1 + a.len());
    assert(fresh_name(m).len() == 1 + b.len());
    assert forall|i: int| 0 <= i < a.len() implies a[i] == b[i] by {
        assert(fresh_name(n)[i + 1] == digit_char(a[i]));
        assert(fresh_name(m)[i + 1] == digit_char(b[i]));
    }
    assert(a =~= b);
}

/// At most one index is the first unused one.
pub proof fn first_unused_is_unique(used: Set<Seq<char>>, from: nat, n: nat)
    requires
        is_first_unused(used, from, n),
    ensures
        first_unused(used, from) == n,
{
    let k = first_unused(used, from);
    assert(is_first_unused(used, from, k));
    if k < n {
        assert(used.contains(fresh_name(k)));
    }
    if n < k {
        assert(used.contains(fresh_name(n)));
    }
}

/// A finite set holds generated names below some index only.
pub proof fn finite_set_bounds_indices(used: Set<Seq<char>>) -> (bound: nat)
    requires
        used.finite(),
    ensures
        forall|n: nat| used.contains(#[trigger] fresh_name(n)) ==> n < bound,
    decreases used.len(),
{
    if used.is_empty() {
        0
    } else {
        let x = used.choose();
        let rest = finite_set_bounds_indices(used.remove(x));
        if exists|k: nat| fresh_name(k) == x {
            let k = choose|k: nat| fresh_name(k) == x;
            let bound = if rest > k { rest } else { k + 1 };
            assert forall|n: nat| used.contains(#[trigger] fresh_name(n)) implies n < bound by {
                if fresh_name(n) == x {
                    fresh_name_injective(n, k);
                } else {
                    assert(used.remove(x).contains(fresh_name(n)));
                }
            }
            bound
        } else {
            assert forall|n: nat| used.contains(#[trigger] fresh_name(n)) implies n < rest by {
                assert(used.remove(x).contains(fresh_name(n)));
            }
            rest
        }
    }
}

/// In a finite set, some index from `from` on is unused.
pub proof fn first_unused_exists(used: Set<Seq<char>>, from: nat)
    requires
        used.finite(),
    ensures
        is_first_unused(used, from, first_unused(used, from)),
{
    let bound = finite_set_bounds_indices(used);
    let top = if bound > from { bound } else { from };
    assert(!used.contains(fresh_name(top)));
    let n = least_unused(used, from, top);
    assert(is_first_unused(used, from, n));
}

proof fn least_unused(used: Set<Seq<char>>, from: nat, top: nat) -> (n: nat)
    requires
        from <= top,
        !used.contains(fresh_name(top)),
    ensures
        is_first_unused(used, from, n),
    decreases top - from,
{
    if !used.contains(fresh_name(from)) {
        from
    } else {
        let n = least_unused(used, from + 1, top);
        assert forall|m: nat| from <= m < n implies used.contains(#[trigger] fresh_name(m)) by {
            if m > from {
                assert(from + 1 <= m);
            }
        }
        n
    }
}

/// The text of one decimal digit.
fn digit_text(d: u8) -> (text: &'static str)
    requires
        d < 10,
    ensures
        text@ == seq![digit_char(d)],
{
    proof {
        reveal_strlit("0");
        reveal_strlit("1");
        reveal_strlit("2");
        reveal_strlit("3");
        reveal_strlit("4");
        reveal_strlit("5");
        reveal_strlit("6");
        reveal_strlit("7");
        reveal_strlit("8");
        reveal_strlit("9");
    }
    let text = if d == 0 {
        "0"
    } else if d == 1 {
        "1"
    } else if d == 2 {
        "2"
    } else if d == 3 {
        "3"
    } else if d == 4 {
        "4"
    } else if d == 5 {
        "5"
    } else if d == 6 {
        "6"
    } else if d == 7 {
        "7"
    } else if d == 8 {
        "8"
    } else {
        "9"
    };
    assert(text@ =~= seq![digit_char(d)]);
    text
}

/// The generated name whose index has the given digits.
fn name_from_digits(counter: &Vec<u8>, Ghost(n): Ghost<nat>) -> (name: String)
    requires
        counter@ == digits(n),
    ensures
        name@ == fresh_name(n),
{
    proof {
        reveal_strlit("v");
        digits_properties(n);
    }
    let mut name = String::from_str("v");
    assert(name@ =~= seq!['v'] + digits_text(counter@.take(0)));
    let mut i: usize = 0;
    while i < counter.len()
        invariant
            i <= counter.len(),
            counter@ == digits(n),
            forall|j: int| 0 <= j < counter@.len() ==> #[trigger] counter@[j] < 10,
            name@ == seq!['v'] + digits_text(counter@.take(i as int)),
        decreases counter.len() - i,
    {
        let text = digit_text(counter[i]);
        name.append(text);
        assert(name@ =~= seq!['v'] + digits_text(counter@.take(i + 1)));
        i += 1;
    }
    assert(counter@.take(i as int) =~= counter@);
    name
}

/// Adds one to a number held as its decimal digits.
fn increment(counter: &mut Vec<u8>, Ghost(n): Ghost<nat>)
    requires
        old(counter)@ == digits(n),
    ensures
        final(counter)@ == digits(n + 1),
    decreases n,
{
    proof {
        digits_properties(n);
        if n >= 10 {
            digits_properties(n / 10);
        }
    }
    let last = counter.pop();
    assert(counter@ =~= if n < 10 {
        Seq::<u8>::empty()
    } else {
        digits(n / 10)
    });
    let d: u8 = match last {
        Some(d) => d,
        None => 9,
    };
    if d < 9 {
        counter.push(d + 1);
    } else {
        if counter.len() == 0 {
            counter.push(1);
        } else {
            increment(counter, Ghost(n / 10));
        }
        counter.push(0);
    }
    assert(counter@ =~= digits(n + 1)) by {
        reveal_with_fuel(digits, 2);
    }
}

/// A supply of generated names that skips every name of a given set.
///
/// Names come out in the order of their indices, so no name comes out twice.
/// The index is kept as its decimal digits, most significant first: it has no
/// upper bound, and the supply never runs out.
pub struct FreshNames {
    counter: Vec<u8>,
    used: StringHashSet,
}

impl FreshNames {
    /// The index of the next candidate name.
    pub closed spec fn next_index(&self) -> nat {
        digits_value(self.counter@)
    }

    /// The names that are never handed out.
    pub closed spec fn used(&self) -> Set<Seq<char>> {
        self.used@
    }

    /// The supply is in a valid state.
    pub closed spec fn wf(&self) -> bool {
        &&& self.counter@ == digits(digits_value(self.counter@))
        &&& self.used@.finite()
    }

    /// A supply that starts at index 0 and skips the names in `used`.
    pub fn new(used: StringHashSet) -> (supply: FreshNames)
        requires
            used@.finite(),
        ensures
            supply.wf(),
            supply.next_index() == 0,
            supply.used() == used@,
    {
        let mut counter: Vec<u8> = Vec::new();
        counter.push(0);
        proof {
            assert(counter@ =~= digits(0));
            digits_properties(0);
        }
        FreshNames { counter, used }
    }

    /// Hands out the first candidate name, from the current index on, that is
    /// not in the skipped set, and moves the index past it.
    pub fn next(&mut self) -> (name: String)
        requires
            old(self).wf(),
        ensures
            final(self).wf(),
            final(self).used() == old(self).used(),
            is_first_unused(old(self).used(), old(self).next_index(), (final(self).next_index() - 1) as nat),
            final(self).next_index() == first_unused(old(self).used(), old(self).next_index()) + 1,
            name@ == fresh_name(first_unused(old(self).used(), old(self).next_index())),
    {
        let ghost start = self.next_index();
        let ghost bound = finite_set_bounds_indices(self.used@);
        let ghost mut n = start;
        let mut name = name_from_digits(&self.counter, Ghost(n));
        increment(&mut self.counter, Ghost(n));
        proof {
            digits_properties(n + 1);
        }
        while self.used.contains(name.as_str())
            invariant
                self.used == old(self).used,
                self.used@.finite(),
                start <= n,
                name@ == fresh_name(n),
                self.counter@ == digits(n + 1),
                digits_value(self.counter@) == n + 1,
                forall|m: nat| start <= m < n ==> self.used@.contains(#[trigger] fresh_name(m)),
                forall|m: nat| self.used@.contains(#[trigger] fresh_name(m)) ==> m < bound,
            decreases bound - n,
        {
            proof {
                n = n + 1;
            }
            name = name_from_digits(&self.counter, Ghost(n));
            increment(&mut self.counter, Ghost(n));
            proof {
                digits_properties(n + 1);
            }
        }
        proof {
            assert(is_first_unused(old(self).used(), start, n));
            first_unused_is_unique(old(self).used(), start, n);
        }
        name
    }
}

} // verus!

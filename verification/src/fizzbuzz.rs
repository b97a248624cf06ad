//! The counting exercise: numbers, with multiples of three and five replaced by words.
use vstd::prelude::*;

use crate::text::{decimal_spec, push_decimal, text_of};

verus! {

/// The line printed for `n`: FizzBuzz for multiples of fifteen, Fizz for other multiples of
/// three, Buzz for other multiples of five, and the number itself otherwise.
pub open spec fn fizzbuzz_spec(n: u64) -> Seq<char> {
    if n % 15 == 0 {
        "FizzBuzz"@
    } else if n % 3 == 0 {
        "Fizz"@
    } else if n % 5 == 0 {
        "Buzz"@
    } else {
        decimal_spec(n as nat)
    }
}

/// The line for `n` depends on the divisibility of `n` itself: multiples of fifteen
/// are FizzBuzz, other multiples of three Fizz, other multiples of five Buzz, and any
/// other number is written in decimal digits.
pub proof fn law_fizzbuzz_follows_divisibility(n: u64, line: Seq<char>)
    requires
        line == fizzbuzz_spec(n),
    ensures
        n % 15 == 0 ==> line == "FizzBuzz"@,
        n % 3 == 0 && n % 5 != 0 ==> line == "Fizz"@,
        n % 5 == 0 && n % 3 != 0 ==> line == "Buzz"@,
        n % 3 != 0 && n % 5 != 0 ==> line == decimal_spec(n as nat),
{
}

/// The line printed for `n`.
pub fn fizzbuzz_line(n: u64) -> (line: String)
    ensures
        line@ == fizzbuzz_spec(n),
{
    if n % 15 == 0 {
        "FizzBuzz".to_owned()
    } else if n % 3 == 0 {
        "Fizz".to_owned()
    } else if n % 5 == 0 {
        "Buzz".to_owned()
    } else {
        let mut digits: Vec<char> = Vec::new();
        push_decimal(&mut digits, n as u128);
        assert(digits@ =~= decimal_spec(n as nat));
        text_of(&digits)
    }
}

} // verus!

use bit_to_byte::fizzbuzz::fizzbuzz_line;

#[test]
fn multiples_of_three_and_five_become_words() {
    let lines: Vec<String> = (1..=15).map(fizzbuzz_line).collect();
    assert_eq!(
        lines,
        vec![
            "1", "2", "Fizz", "4", "Buzz", "Fizz", "7", "8", "Fizz", "Buzz", "11", "Fizz", "13",
            "14", "FizzBuzz"
        ]
    );
    assert_eq!(fizzbuzz_line(0), "FizzBuzz");
    assert_eq!(fizzbuzz_line(u64::MAX), "FizzBuzz");
    assert_eq!(fizzbuzz_line(u64::MAX - 1), "18446744073709551614");
}

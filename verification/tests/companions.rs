use coop_runtime::config::generate_default_config;
use coop_runtime::config::Color;
use coop_runtime::dynamic_errors;
use coop_runtime::fib::fibonacci;
use coop_runtime::fib::parallel;
use coop_runtime::fib::sequential;
use coop_runtime::structured_errors;
use coop_runtime::structured_errors::BetterErrorA;
use coop_runtime::structured_errors::BetterErrorB;

#[test]
fn fibonacci_small_values() {
    assert_eq!(fibonacci(0), 0);
    assert_eq!(fibonacci(1), 1);
    assert_eq!(fibonacci(2), 1);
    assert_eq!(fibonacci(10), 55);
    assert_eq!(fibonacci(52), 32951280099);
}

#[test]
fn fibonacci_largest_value_fitting_a_u64() {
    assert_eq!(fibonacci(93), 12200160415121876738);
}

#[test]
fn sequential_collects_the_whole_range() {
    let m = sequential(0, 10);
    assert_eq!(m.len(), 10);
    assert_eq!(m[&0], 0);
    assert_eq!(m[&7], 13);
    assert_eq!(m[&9], 34);
    assert!(!m.contains_key(&10));
}

#[test]
fn sequential_of_an_empty_range_is_empty() {
    let m = sequential(5, 5);
    assert!(m.is_empty());
}

#[test]
fn parallel_matches_sequential() {
    let a = sequential(0, 30);
    let b = parallel(0, 30);
    assert_eq!(a, b);
}

#[test]
fn dynamic_error_helpers_succeed() {
    assert!(dynamic_errors::function1_that_may_fail().is_ok());
    assert!(dynamic_errors::_function2_that_may_fail().is_ok());
    assert!(dynamic_errors::_better_main().is_ok());
    assert!(dynamic_errors::_even_better_main().is_ok());
}

#[test]
fn structured_error_helpers_succeed() {
    assert!(structured_errors::function1_that_may_fail().is_ok());
    assert!(structured_errors::_function2_that_may_fail().is_ok());
    assert!(structured_errors::_better_main().is_ok());
    assert!(structured_errors::_better_function1_that_may_fail().is_ok());
    assert!(structured_errors::_better_function2_that_may_fail().is_ok());
    assert!(structured_errors::_even_better_main().is_ok());
}

#[test]
fn structured_errors_convert_into_each_other() {
    let a = structured_errors::ErrorA::from(structured_errors::ErrorB);
    assert_eq!(a, structured_errors::ErrorA);
    let b = structured_errors::ErrorB::from(structured_errors::ErrorA);
    assert_eq!(b, structured_errors::ErrorB);
    let better = BetterErrorA::from(BetterErrorB);
    assert_eq!(better, BetterErrorA { source: BetterErrorB });
}

#[test]
fn structured_errors_carry_messages() {
    assert_eq!(structured_errors::ErrorA.message(), "ErrorA");
    assert_eq!(structured_errors::ErrorB.message(), "ErrorB");
}

#[test]
fn default_config_contents() {
    let c = generate_default_config();
    assert_eq!(c.some_setting, "some value");
    assert_eq!(c.color, Color::RgbColor(0, 0, 0));
    assert_eq!(c.enabled_features, vec!["feature1".to_string(), "feature2".to_string()]);
}

use rcompute::components::single_threaded_calculator::Calculator;

#[test]
fn calculator_test_instantiation() {
    let calc: Calculator = Calculator::new([[0; 3]; 3], [[0; 3]; 3]);

    assert_eq!(calc.a, [[0; 3]; 3]);
    assert_eq!(calc.b, [[0; 3]; 3]);
}

#[test]
fn calculator_test_calculate_ones() {
    let calc: Calculator = Calculator::new(
        [[1, 1, 1], [1, 1, 1], [1, 1, 1]],
        [[1, 1, 1], [1, 1, 1], [1, 1, 1]],
    );

    println!("{}", calc.to_string());
    let c = calc.calculate();

    assert_eq!(c, [[3, 3, 3], [3, 3, 3], [3, 3, 3]]);
}

#[test]
fn calculator_test_identity() {
    let a = [[1, 2, 3], [4, 5, 6], [7, 8, 9]];
    let identity = [[1, 0, 0], [0, 1, 0], [0, 0, 1]];

    let calc: Calculator = Calculator::new(a, identity);
    assert_eq!(calc.calculate(), a);

    let calc: Calculator = Calculator::new(identity, a);
    assert_eq!(calc.calculate(), a);
}

#[test]
fn calculator_test_zero() {
    let a = [[1, 2, 3], [4, 5, 6], [7, 8, 9]];
    let zero = [[0, 0, 0], [0, 0, 0], [0, 0, 0]];

    let calc: Calculator = Calculator::new(a, zero);
    assert_eq!(calc.calculate(), zero);

    let calc: Calculator = Calculator::new(zero, a);
    assert_eq!(calc.calculate(), zero);
}

#[test]
fn calculator_test_example() {
    let a = [[1, 2, 3], [4, 5, 6], [7, 8, 9]];
    let b = [[9, 8, 7], [6, 5, 4], [3, 2, 1]];

    let expected = [[30, 24, 18], [84, 69, 54], [138, 114, 90]];

    let calc: Calculator = Calculator::new(a, b);
    assert_eq!(calc.calculate(), expected);
}

#[test]
fn calculator_test_diagonal() {
    let a = [[2, 0, 0], [0, 3, 0], [0, 0, 4]];
    let b = [[5, 0, 0], [0, 6, 0], [0, 0, 7]];
    let expected = [[10, 0, 0], [0, 18, 0], [0, 0, 28]];

    let calc: Calculator = Calculator::new(a, b);
    assert_eq!(calc.calculate(), expected);
}

#[test]
fn calculator_test_column() {
    let a = [[1, 2, 3], [4, 5, 6], [7, 8, 9]];
    let b = [[0, 0, 0], [0, 1, 0], [0, 0, 0]];
    let expected = [[0, 2, 0], [0, 5, 0], [0, 8, 0]];

    let calc: Calculator = Calculator::new(a, b);
    assert_eq!(calc.calculate(), expected);
}

#[test]
fn calculator_test_random() {
    let a = [[2, 1, 3], [0, 4, 2], [5, 2, 1]];
    let b = [[1, 3, 2], [4, 0, 1], [2, 5, 3]];
    let expected = [[12, 21, 14], [20, 10, 10], [15, 20, 15]];

    let calc: Calculator = Calculator::new(a, b);
    assert_eq!(calc.calculate(), expected);
}

#[test]
fn calculator_prints_matrices_row_by_row() {
    assert_eq!(
        Calculator::get_print([[1, 20, 300], [0, 5, 6], [7, 8, 4294967295]]),
        "1 20 300 \n0 5 6 \n7 8 4294967295 \n"
    );
    let calc = Calculator::new([[1, 2, 3], [4, 5, 6], [7, 8, 9]], [[0; 3]; 3]);
    assert_eq!(
        calc.to_string(),
        "a is\n1 2 3 \n4 5 6 \n7 8 9 \n\nb is\n0 0 0 \n0 0 0 \n0 0 0 \n\n"
    );
}

#[test]
fn calculator_reaches_u32_limit_exactly() {
    let a = [[65535, 0, 0], [0, 1, 0], [0, 0, 1]];
    let b = [[65537, 0, 0], [0, 1, 0], [0, 0, 1]];
    assert_eq!(Calculator::new(a, b).calculate()[0][0], u32::MAX);
}

use pack::vector::{VectorAdd, VectorDifference};

#[test]
fn should_determine_vector_difference_of_tuple() {
    let a: (i8, i8) = (1, 2);
    let b: (i8, i8) = (4, 4);

    let difference = a.difference(&b);

    assert_eq!(difference, (3, 2))
}

#[test]
fn should_determine_vector_difference_of_triple() {
    let a: (i8, i8, i8) = (1, 2, 3);
    let b: (i8, i8, i8) = (4, 4, 4);

    let difference = a.difference(&b);

    assert_eq!(difference, (3, 2, 1))
}

#[test]
fn should_determine_vector_addition_of_tuple() {
    let mut a: (i8, i8) = (1, 2);
    let b: (i8, i8) = (4, 4);

    a.add(&b);

    assert_eq!(a, (5, 6))
}

#[test]
fn should_determine_vector_addition_of_triple() {
    let mut a: (i8, i8, i8) = (1, 2, 3);
    let b: (i8, i8, i8) = (4, 4, 4);

    a.add(&b);

    assert_eq!(a, (5, 6, 7))
}

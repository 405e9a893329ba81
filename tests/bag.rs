use pack::bag::Bag;
use pack::geometry::Position;
use pack::template::Template;

#[test]
fn bag_should_iterate_over_collection() {
    let bag = Bag::new(vec![
        (1, Template::new(vec![Position::new(0, 0, 0), Position::new(1, 0, 0)])),
        (1, Template::new(vec![Position::new(0, 0, 0)])),
    ]);

    let mut iterator = bag.into_iter();
    let candidate = iterator.next();
    assert!(candidate.is_some());
    let (template, rest) = candidate.unwrap();
    assert_eq!(template, Template::new(vec![Position::new(0, 0, 0), Position::new(1, 0, 0)]));
    assert_eq!(rest, Bag::new(vec![(1, Template::new(vec![Position::new(0, 0, 0)]))]));

    let candidate = iterator.next();
    assert!(candidate.is_some());
    let (template, rest) = candidate.unwrap();
    assert_eq!(template, Template::new(vec![Position::new(0, 0, 0)]));
    assert_eq!(
        rest,
        Bag::new(vec![(
            1,
            Template::new(vec![Position::new(0, 0, 0), Position::new(1, 0, 0)])
        )])
    );
}

#[test]
fn bag_of_n_copies_yields_n_pairs_each_leaving_n_minus_one() {
    let a = Template::new(vec![Position::new(0, 0, 0)]);
    let b = Template::new(vec![Position::new(0, 0, 0), Position::new(0, 1, 0)]);
    let c = Template::new(vec![Position::new(0, 0, 0), Position::new(0, 0, 1)]);
    let bag = Bag::new(vec![(1, a.clone()), (1, b.clone()), (1, c.clone())]);
    let mut iterator = bag.into_iter();
    let mut pairs = 0;
    while let Some((_, rest)) = iterator.next() {
        assert_eq!(rest.len(), 2);
        pairs += 1;
    }
    assert_eq!(pairs, 3);
}

#[test]
fn repeated_entry_leaves_one_fewer_copy() {
    let a = Template::new(vec![Position::new(0, 0, 0)]);
    let b = Template::new(vec![Position::new(0, 0, 0), Position::new(0, 1, 0)]);
    let bag = Bag::new(vec![(2, a.clone()), (1, b.clone())]);
    let mut iterator = bag.into_iter();
    let (first, rest) = iterator.next().unwrap();
    assert_eq!(first, a);
    assert_eq!(rest, Bag::new(vec![(1, a.clone()), (1, b.clone())]));
    let (second, rest) = iterator.next().unwrap();
    assert_eq!(second, b);
    assert_eq!(rest, Bag::new(vec![(2, a.clone())]));
    assert!(iterator.next().is_none());
}

#[test]
fn selecting_a_middle_entry_moves_the_last_into_its_place() {
    let a = Template::new(vec![Position::new(0, 0, 0)]);
    let b = Template::new(vec![Position::new(0, 0, 0), Position::new(0, 1, 0)]);
    let c = Template::new(vec![Position::new(0, 0, 0), Position::new(0, 0, 1)]);
    let bag = Bag::new(vec![(1, a.clone()), (1, b.clone()), (1, c.clone())]);
    let mut iterator = bag.into_iter();
    iterator.next();
    let (second, rest) = iterator.next().unwrap();
    assert_eq!(second, b);
    assert_eq!(rest, Bag::new(vec![(1, a.clone()), (1, c.clone())]));
}

#[test]
fn bag_validity() {
    assert!(Bag::new(vec![(1, Template::new(vec![Position::new(0, 0, 0)]))]).is_valid());
    assert!(!Bag::new(vec![(1, Template::new(vec![]))]).is_valid());
    assert!(Bag::new(vec![]).is_valid());
}

#[test]
fn bags_are_equal_as_multisets() {
    let a = Template::new(vec![Position::new(0, 0, 0)]);
    let b = Template::new(vec![Position::new(0, 0, 0), Position::new(0, 1, 0)]);
    assert_eq!(
        Bag::new(vec![(1, a.clone()), (1, b.clone())]),
        Bag::new(vec![(1, b.clone()), (1, a.clone())])
    );
    assert_eq!(Bag::new(vec![(2, a.clone())]), Bag::new(vec![(1, a.clone()), (1, a.clone())]));
    assert_ne!(Bag::new(vec![(1, a.clone())]), Bag::new(vec![(2, a.clone())]));
    assert_ne!(Bag::new(vec![(1, a.clone())]), Bag::new(vec![(1, b.clone())]));
    assert_ne!(Bag::new(vec![(1, a.clone())]), Bag::new(vec![(1, a.clone()), (1, b.clone())]));
}

#[test]
fn iteration_skips_entries_without_copies() {
    let a = Template::new(vec![Position::new(0, 0, 0)]);
    let b = Template::new(vec![Position::new(0, 0, 0), Position::new(0, 1, 0)]);
    let bag = Bag::new(vec![(0, a.clone()), (1, b.clone()), (0, a.clone())]);
    assert!(!bag.is_empty());
    let mut iterator = bag.into_iter();
    let (first, rest) = iterator.next().unwrap();
    assert_eq!(first, b);
    assert!(rest.is_empty());
    assert!(iterator.next().is_none());
    assert!(Bag::new(vec![(0, a.clone())]).is_empty());
}

use monopoly_markov::probability::Probability;

#[test]
fn test_add1() {
    let a = Probability::new(1, 2);
    let b = Probability::new(1, 3);

    let c = a + b;

    assert_eq!(c, Probability::new(5, 6));
}

#[test]
fn test_add2() {
    let a = Probability::new(1, 4);
    let b = Probability::new(1, 4);

    let c = a + b;

    assert_eq!(c, Probability::new(1, 2));
}

#[test]
fn test_addref1() {
    let a = Probability::new(1, 2);
    let b = Probability::new(1, 3);

    let add_by_ref = |a: Probability, b: &Probability| a + b;
    let c = add_by_ref(a, &b);

    assert_eq!(c, Probability::new(5, 6));
}

#[test]
fn test_addref2() {
    let a = Probability::new(1, 4);
    let b = Probability::new(1, 4);

    let add_by_ref = |a: Probability, b: &Probability| a + b;
    let c = add_by_ref(a, &b);

    assert_eq!(c, Probability::new(1, 2));
}

#[test]
fn test_addassign1() {
    let mut a = Probability::new(1, 2);
    let b = Probability::new(1, 3);

    a.add_assign(b);

    assert_eq!(a, Probability::new(5, 6));
}

#[test]
fn test_addassign2() {
    let mut a = Probability::new(1, 4);
    let b = Probability::new(1, 4);

    a.add_assign(b);

    assert_eq!(a, Probability::new(1, 2));
}

#[test]
fn test_sum1() {
    let sum = Probability::sum(&[Probability::new(1, 2), Probability::new(1, 4)]).unwrap();

    assert_eq!(sum, Probability::new(3, 4));
}

#[test]
fn test_sub1() {
    let a = Probability::new(1, 2);
    let b = Probability::new(1, 3);

    let c = a - b;

    assert_eq!(c, Probability::new(1, 6));
}

#[test]
fn test_sub2() {
    let a = Probability::new(1, 4);
    let b = Probability::new(1, 2);

    let c = a - b;

    assert_eq!(c, Probability::new(-1, 4));
}

#[test]
fn test_subref1() {
    let a = Probability::new(1, 2);
    let b = Probability::new(1, 3);

    let sub_by_ref = |a: Probability, b: &Probability| a - b;
    let c = sub_by_ref(a, &b);

    assert_eq!(c, Probability::new(1, 6));
}

#[test]
fn test_subref2() {
    let a = Probability::new(1, 4);
    let b = Probability::new(1, 2);

    let sub_by_ref = |a: Probability, b: &Probability| a - b;
    let c = sub_by_ref(a, &b);

    assert_eq!(c, Probability::new(-1, 4));
}

#[test]
fn test_subassign1() {
    let mut a = Probability::new(1, 2);
    let b = Probability::new(1, 3);

    a.sub_assign(b);

    assert_eq!(a, Probability::new(1, 6));
}

#[test]
fn test_subassign2() {
    let mut a = Probability::new(1, 4);
    let b = Probability::new(1, 2);

    a.sub_assign(b);

    assert_eq!(a, Probability::new(-1, 4));
}

#[test]
fn test_mul1() {
    let a = Probability::new(1, 2);
    let b = Probability::new(1, 3);

    let c = a * b;

    assert_eq!(c, Probability::new(1, 6));
}

#[test]
fn test_mul2() {
    let a = Probability::new(2, 3);
    let b = Probability::new(3, 6);

    let c = a * b;

    assert_eq!(c, Probability::new(1, 3));
}

#[test]
fn test_mulassign1() {
    let mut a = Probability::new(1, 2);
    let b = Probability::new(1, 3);

    a.mul_assign(b);

    assert_eq!(a, Probability::new(1, 6));
}

#[test]
fn test_mulassign2() {
    let mut a = Probability::new(2, 3);
    let b = Probability::new(3, 6);

    a.mul_assign(b);

    assert_eq!(a, Probability::new(1, 3));
}

#[test]
fn test_div1() {
    let a = Probability::new(2, 3);

    let c = a / 2;

    assert_eq!(c, Probability::new(1, 3));
}

#[test]
fn test_div2() {
    let a = Probability::new(2, 3);

    let c = a / 3;

    assert_eq!(c, Probability::new(2, 9));
}

#[test]
fn test_display1() {
    let a = Probability::new(2, 3);

    assert_eq!(a.to_string(), "2/3");
}

#[test]
fn test_display2() {
    let a = Probability::zero();

    assert_eq!(a.to_string(), "0");
}

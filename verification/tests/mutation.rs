use rds::composite::{DistortionMutateDatabase, NoiseMutateDatabase, PointMutateDatabase};
use rds::envelope::Point;
use rds::mutate::{BoolDatabase, IntDatabase};
use rds::random::FixedShift;
use rds::sections::{Distortion, Noise};
use rds::variant::EnumMutateDatabase;

fn int_db(values: &[i32]) -> IntDatabase<i32> {
    let mut db = IntDatabase::new();
    for &v in values {
        db.insert(v);
    }
    db
}

#[test]
fn int_database_keeps_values_sorted() {
    let db = int_db(&[5, 1, 3, 3, -2]);
    assert_eq!(db.values, vec![-2, 1, 3, 3, 5]);
}

#[test]
fn int_equal_run() {
    let db = int_db(&[5, 1, 3, 3]);
    assert_eq!(db.equal_run_of(3), (1, 2));
    assert_eq!(db.equal_run_of(4), (4, 0));
}

#[test]
fn int_mutation_for_given_draws() {
    let db = int_db(&[5, 1, 3, 3]);
    assert_eq!(db.mutate_at(3, 0, 0), 3);
    assert_eq!(db.mutate_at(3, 1, 0), 3);
    assert_eq!(db.mutate_at(3, 1, 1), 5);
    assert_eq!(db.mutate_at(3, 0, -1), 1);
    assert_eq!(db.mutate_at(3, 0, -10), 1);
    assert_eq!(db.mutate_at(3, 0, isize::MAX), 5);
    assert_eq!(db.mutate_at(3, 1, isize::MIN), 1);
}

#[test]
fn int_mutation_with_drawn_index() {
    let db = int_db(&[5, 1, 3, 3, 7]);
    for _ in 0..20 {
        assert_eq!(db.mutate(3, &FixedShift(0)), 3);
        assert_eq!(db.mutate(3, &FixedShift(100)), 7);
        assert_eq!(db.mutate(3, &FixedShift(-100)), 1);
        let r = db.mutate(3, &FixedShift(2));
        assert!(r == 5 || r == 7);
    }
}

#[test]
fn bool_database_counts() {
    let mut db = BoolDatabase::new();
    db.insert(true);
    db.insert(false);
    db.insert(true);
    assert_eq!((db.trues, db.falses), (2, 1));
}

#[test]
fn bool_mutation_for_given_draws() {
    let db = BoolDatabase { trues: 2, falses: 3 };
    assert!(db.mutate_at(true, 1, 0));
    assert!(!db.mutate_at(false, 3, 0));
    assert!(db.mutate_at(false, 3, -2));
    assert!(!db.mutate_at(false, 2, 100));
    assert!(db.mutate_at(true, 0, -100));
    assert!(!db.mutate_at(true, 1, 1));
}

#[test]
fn bool_mutation_with_drawn_index() {
    let db = BoolDatabase { trues: 2, falses: 3 };
    for _ in 0..20 {
        assert!(db.mutate(true, &FixedShift(0)));
        assert!(!db.mutate(false, &FixedShift(0)));
        assert!(db.mutate(false, &FixedShift(-10)));
        assert!(!db.mutate(true, &FixedShift(10)));
    }
}

#[test]
fn enum_database_counts() {
    let mut db = EnumMutateDatabase::new(3);
    db.insert(2);
    db.insert(0);
    db.insert(2);
    assert_eq!(db.counts, vec![1, 0, 2]);
}

#[test]
fn enum_mutation_for_given_draws() {
    let db = EnumMutateDatabase { counts: vec![2, 0, 3] };
    let order = vec![0, 1, 2];
    assert_eq!(db.mutate_at(0, &order, 1, 0), 0);
    assert_eq!(db.mutate_at(0, &order, 1, 1), 2);
    assert_eq!(db.mutate_at(2, &order, 0, -1), 0);
    assert_eq!(db.mutate_at(2, &order, 0, 100), 2);
    let order = vec![2, 0, 1];
    assert_eq!(db.mutate_at(0, &order, 0, 0), 0);
    assert_eq!(db.mutate_at(0, &order, 1, 1), 1);
    assert_eq!(db.mutate_at(0, &order, 0, -100), 2);
}

#[test]
fn enum_mutation_with_drawn_order() {
    let db = EnumMutateDatabase { counts: vec![2, 0, 3, 1] };
    for _ in 0..20 {
        assert_eq!(db.mutate(0, &FixedShift(0)), 0);
        assert_eq!(db.mutate(2, &FixedShift(0)), 2);
        assert_eq!(db.mutate(3, &FixedShift(0)), 3);
        assert!(db.mutate(3, &FixedShift(5)) < 4);
    }
}

#[test]
fn point_database_mutation() {
    let mut db = PointMutateDatabase::new();
    let ps = vec![Point::new(0, 10), Point::new(50, 20), Point::new(100, 30)];
    db.insert_all(&ps);
    assert_eq!(db.0.values, vec![0, 50, 100]);
    assert_eq!(db.1.values, vec![10, 20, 30]);
    assert_eq!(db.mutate_all(&ps, &FixedShift(0)), ps);
    assert_eq!(
        db.mutate_all(&ps, &FixedShift(1)),
        vec![Point::new(50, 20), Point::new(100, 30), Point::new(100, 30)]
    );
    let mut single = PointMutateDatabase::new();
    single.insert(&Point::new(4, 5));
    assert_eq!(single.mutate(&Point::new(4, 5), &FixedShift(-3)), Point::new(4, 5));
}

#[test]
fn noise_database_mutation() {
    let noise = Noise {
        On: true,
        Level: 80,
        Slope: -10,
        Envelope: vec![Point::new(0, 100), Point::new(300, 0)],
    };
    let other = Noise {
        On: false,
        Level: 20,
        Slope: 40,
        Envelope: vec![Point::new(0, 50), Point::new(900, 0)],
    };
    let mut db = NoiseMutateDatabase::new();
    db.insert(&noise);
    db.insert(&other);
    assert_eq!((db.0.trues, db.0.falses), (1, 1));
    assert_eq!(db.1.values, vec![20, 80]);
    assert_eq!(db.mutate(&noise, &FixedShift(0)), noise);
    let up = db.mutate(&other, &FixedShift(1));
    assert_eq!(up.Level, 80);
    assert_eq!(up.Slope, 40);
}

#[test]
fn distortion_database_mutation() {
    let d = Distortion { On: false, Clipping: 3, Bits: 8, Rate: 2 };
    let mut db = DistortionMutateDatabase::new();
    db.insert(&d);
    db.insert(&Distortion { On: true, Clipping: 9, Bits: 4, Rate: 1 });
    assert_eq!(db.mutate(&d, &FixedShift(0)), d);
    let down = db.mutate(&d, &FixedShift(-5));
    assert_eq!(down, Distortion { On: true, Clipping: 3, Bits: 4, Rate: 1 });
}

#[test]
fn int_database_ignores_insertion_order() {
    assert_eq!(int_db(&[5, 1, 3, 1]).values, int_db(&[1, 3, 1, 5]).values);
}

#[test]
fn databases_of_other_integer_widths() {
    let mut small: IntDatabase<u8> = IntDatabase::new();
    for v in [200u8, 3, 255, 3].iter() {
        small.insert(*v);
    }
    assert_eq!(small.values, vec![3, 3, 200, 255]);
    let r = small.mutate(3, &FixedShift(2));
    assert!(r == 200 || r == 255);
    assert_eq!(small.mutate_at(255, 0, -1), 200);

    let mut wide: IntDatabase<i64> = IntDatabase::new();
    wide.insert(i64::MIN);
    wide.insert(i64::MAX);
    wide.insert(0);
    assert_eq!(wide.values, vec![i64::MIN, 0, i64::MAX]);
    assert_eq!(wide.mutate(0, &FixedShift(-1)), i64::MIN);

    let mut sizes: IntDatabase<usize> = IntDatabase::new();
    sizes.insert(usize::MAX);
    sizes.insert(1);
    assert_eq!(sizes.mutate(1, &FixedShift(isize::MAX)), usize::MAX);
}

#[test]
fn lists_of_integers() {
    let mut db: IntDatabase<i16> = IntDatabase::new();
    db.insert_all(&vec![4, -2, 9]);
    db.insert_all(&vec![4]);
    assert_eq!(db.values, vec![-2, 4, 4, 9]);
    assert_eq!(db.mutate_all(&vec![4, 9, -2], &FixedShift(0)), vec![4, 9, -2]);
    assert_eq!(db.mutate_all(&vec![-2, 9], &FixedShift(1)), vec![4, 9]);
}

#[test]
fn lists_of_booleans() {
    let mut db = BoolDatabase::new();
    db.insert_all(&vec![true, false, false, true, false]);
    assert_eq!((db.trues, db.falses), (2, 3));
    assert_eq!(db.mutate_all(&vec![true, false], &FixedShift(0)), vec![true, false]);
    assert_eq!(db.mutate_all(&vec![true, false], &FixedShift(-10)), vec![true, true]);
    assert_eq!(db.mutate_all(&vec![true, false], &FixedShift(10)), vec![false, false]);
}

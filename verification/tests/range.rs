use p3_matrix::Matrix;
use valida_air::builder::ConstraintBuilder;
use valida_air::expr::Expr;
use valida_air::range::columns::{
    RangeCols, RangePreprocessedCols, NUM_RANGE_COLS, NUM_RANGE_PREPROCESSED_COLS,
};
use valida_air::range::lookup::{count_lookups, reconcile_lookups, RangeBus};
use valida_air::range::RangeCheckerChip;

#[test]
fn range_width_is_one_column() {
    assert_eq!(RangeCheckerChip::<1024>::new().width(), 1);
    assert_eq!(NUM_RANGE_COLS, 1);
    assert_eq!(NUM_RANGE_PREPROCESSED_COLS, 1);
}

#[test]
fn range_rows_have_one_cell() {
    assert_eq!(RangeCols::from_row(&[5u64]).unwrap().mult, 5);
    assert!(RangeCols::from_row(&[5u64, 6]).is_none());
    assert!(RangeCols::<u64>::from_row(&[]).is_none());
    assert_eq!(RangePreprocessedCols::from_row(&[7u64]).unwrap().counter, 7);
    assert!(RangePreprocessedCols::from_row(&[7u64, 8]).is_none());
}

#[test]
fn range_eval_binds_nothing() {
    let mut builder = ConstraintBuilder::new();
    builder.assert_zero(Expr::zero());
    RangeCheckerChip::<1024>::new().eval(&mut builder);
    assert_eq!(builder.constraints().len(), 1);
}

#[test]
fn range_column_holds_every_entry_once_in_order() {
    let column = RangeCheckerChip::<1024>::new().preprocessed_column();
    assert_eq!(column, (0..1024).collect::<Vec<u64>>());
    assert_eq!(RangeCheckerChip::<0>::new().preprocessed_column(), Vec::<u64>::new());
    assert_eq!(RangeCheckerChip::<3>::new().preprocessed_column(), vec![0, 1, 2]);
}

#[test]
fn range_trace_is_one_column_of_the_entries() {
    let trace = RangeCheckerChip::<1024>::new().preprocessed_trace();
    assert_eq!(trace.width(), 1);
    assert_eq!(trace.height(), 1024);
    assert_eq!(trace.values, (0..1024).collect::<Vec<u64>>());
    assert_eq!(trace.get(0, 0), Some(0));
    assert_eq!(trace.get(1023, 0), Some(1023));
    assert_eq!(trace.get(1024, 0), None);
}

#[test]
fn range_bus_keeps_what_is_submitted() {
    let mut bus = RangeBus::new();
    assert_eq!(bus.submitted().len(), 0);
    bus.submit(5);
    bus.submit(0);
    bus.submit(5);
    assert_eq!(bus.submitted(), &vec![5, 0, 5]);
}

#[test]
fn range_values_in_range_find_their_entry() {
    let chip = RangeCheckerChip::<1024>::new();
    let mut bus = RangeBus::new();
    for v in [0, 1023, 17, 17, 512, 17] {
        bus.submit(v);
    }
    let mult = chip.multiplicities(&bus).unwrap();
    assert_eq!(mult.len(), 1024);
    assert_eq!(mult[0], 1);
    assert_eq!(mult[17], 3);
    assert_eq!(mult[512], 1);
    assert_eq!(mult[1023], 1);
    assert_eq!(mult[1], 0);
    assert_eq!(mult.iter().sum::<u64>(), 6);
    assert!(chip.reconcile(&bus, &mult));
}

#[test]
fn range_value_at_the_bound_is_rejected() {
    let chip = RangeCheckerChip::<1024>::new();
    let mut bus = RangeBus::new();
    bus.submit(3);
    bus.submit(1024);
    assert_eq!(chip.multiplicities(&bus), None);
    let mut mult = vec![0u64; 1024];
    mult[3] = 1;
    assert!(!chip.reconcile(&bus, &mult));
}

#[test]
fn range_value_above_the_bound_is_rejected() {
    let chip = RangeCheckerChip::<1024>::new();
    for v in [1025, 65536, u32::MAX as u64, u64::MAX] {
        let mut bus = RangeBus::new();
        bus.submit(v);
        assert_eq!(chip.multiplicities(&bus), None);
        assert!(!chip.reconcile(&bus, &vec![0u64; 1024]));
    }
}

#[test]
fn range_wrong_multiplicity_does_not_reconcile() {
    let chip = RangeCheckerChip::<8>::new();
    let mut bus = RangeBus::new();
    bus.submit(2);
    bus.submit(2);
    assert!(chip.reconcile(&bus, &[0, 0, 2, 0, 0, 0, 0, 0]));
    assert!(!chip.reconcile(&bus, &[0, 0, 1, 0, 0, 0, 0, 0]));
    assert!(!chip.reconcile(&bus, &[0, 0, 3, 0, 0, 0, 0, 0]));
    assert!(!chip.reconcile(&bus, &[0, 0, 2, 0, 0, 0, 0, 1]));
    assert!(!chip.reconcile(&bus, &[0, 2, 0, 0, 0, 0, 0, 0]));
}

#[test]
fn range_multiplicities_of_another_length_do_not_reconcile() {
    let chip = RangeCheckerChip::<8>::new();
    let bus = RangeBus::new();
    assert!(chip.reconcile(&bus, &[0; 8]));
    assert!(!chip.reconcile(&bus, &[0; 7]));
    assert!(!chip.reconcile(&bus, &[0; 9]));
}

#[test]
fn range_empty_table_admits_nothing() {
    let chip = RangeCheckerChip::<0>::new();
    let mut bus = RangeBus::new();
    assert_eq!(chip.multiplicities(&bus), Some(Vec::new()));
    bus.submit(0);
    assert_eq!(chip.multiplicities(&bus), None);
}

#[test]
fn range_lookups_are_counted_for_any_bound() {
    assert_eq!(count_lookups(&[2, 0, 2], 3), Some(vec![1, 0, 2]));
    assert_eq!(count_lookups(&[], 3), Some(vec![0, 0, 0]));
    assert_eq!(count_lookups(&[], 0), Some(vec![]));
    assert_eq!(count_lookups(&[2, 0, 3], 3), None);
    assert_eq!(count_lookups(&[0], 0), None);
}

#[test]
fn range_lookups_reconcile_for_any_bound() {
    assert!(reconcile_lookups(&[2, 0, 2], &[1, 0, 2], 3));
    assert!(!reconcile_lookups(&[2, 0, 2], &[1, 0, 1], 3));
    assert!(!reconcile_lookups(&[2, 0, 2], &[1, 0, 2, 0], 3));
    assert!(!reconcile_lookups(&[2, 0, 2], &[1, 0, 2], 2));
    assert!(reconcile_lookups(&[], &[], 0));
}

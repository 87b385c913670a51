use valida_air::machine::advice::{
    AdviceProvider, AdviceProviderType, FixedAdviceProvider, GlobalAdviceProvider,
};

#[test]
fn advice_empty_tape_is_exhausted_at_once() {
    let mut tape = FixedAdviceProvider::empty();
    assert_eq!(tape.get_advice(), None);
    assert_eq!(tape.get_advice(), None);
}

#[test]
fn advice_fixed_tape_hands_out_its_bytes_in_order() {
    let mut tape = FixedAdviceProvider::new(vec![7, 0, 255]);
    assert_eq!(tape.get_advice(), Some(7));
    assert_eq!(tape.get_advice(), Some(0));
    assert_eq!(tape.get_advice(), Some(255));
    assert_eq!(tape.get_advice(), None);
    assert_eq!(tape.get_advice(), None);
}

#[test]
fn advice_provider_type_reads_from_a_fixed_tape() {
    let mut tape = AdviceProviderType::Fixed(FixedAdviceProvider::new(vec![42, 43]));
    assert_eq!(tape.get_advice(), Some(42));
    assert_eq!(tape.get_advice(), Some(43));
    assert_eq!(tape.get_advice(), None);
}

#[test]
fn advice_global_tape_over_given_content() {
    let mut tape = GlobalAdviceProvider::new(Some(vec![1, 2]));
    assert_eq!(tape.get_advice(), Some(1));
    assert_eq!(tape.get_advice(), Some(2));
    assert_eq!(tape.get_advice(), None);
}

#[test]
fn advice_global_tape_over_empty_content() {
    let mut tape = GlobalAdviceProvider::new(Some(Vec::new()));
    assert_eq!(tape.get_advice(), None);
}

use valida_air::alu_u32::bitwise::columns::Bitwise32Cols;
use valida_air::alu_u32::mul::columns::Mul32Cols;
use valida_air::machine::config::StarkConfigImpl;
use valida_air::memory::columns::MemoryCols;
use valida_air::output::columns::OutputCols;
use valida_air::util::{indices_arr, push_all};
use valida_air::word::{word_of, Word, MEMORY_CELL_BYTES};

#[test]
fn machine_config_hands_back_its_parts() {
    let config: StarkConfigImpl<u8, u16, u32, u64, String, Vec<u8>> =
        StarkConfigImpl::new(String::from("scheme"), vec![1, 2, 3]);
    assert_eq!(config.pcs(), "scheme");
    assert_eq!(config.challenger(), vec![1, 2, 3]);
}

#[test]
fn machine_config_challenger_is_a_fresh_clone() {
    let config: StarkConfigImpl<u8, u8, u8, u8, u8, Vec<u8>> = StarkConfigImpl::new(0, vec![9]);
    let mut first = config.challenger();
    first.push(10);
    assert_eq!(first, vec![9, 10]);
    assert_eq!(config.challenger(), vec![9]);
}

#[test]
fn machine_word_is_most_significant_limb_first() {
    assert_eq!(MEMORY_CELL_BYTES, 4);
    assert_eq!(word_of(0x0102_0304), Word([1, 2, 3, 4]));
    assert_eq!(word_of(0), Word([0, 0, 0, 0]));
    assert_eq!(word_of(u32::MAX), Word([255, 255, 255, 255]));
    assert_eq!(word_of(0x8000_0001), Word([128, 0, 0, 1]));
    let w = word_of(0xa1b2_c3d4);
    assert_eq!((w.limb(0), w.limb(1), w.limb(2), w.limb(3)), (0xa1, 0xb2, 0xc3, 0xd4));
}

#[test]
fn machine_indices_hold_their_own_index() {
    assert_eq!(indices_arr::<5>(), [0, 1, 2, 3, 4]);
    assert_eq!(indices_arr::<0>(), [0usize; 0]);
    assert_eq!(indices_arr::<1>(), [0]);
}

#[test]
fn machine_push_all_appends_in_order() {
    let mut row = vec![1u8, 2];
    push_all(&mut row, &[3, 4, 5]);
    assert_eq!(row, vec![1, 2, 3, 4, 5]);
    push_all(&mut row, &[]);
    assert_eq!(row, vec![1, 2, 3, 4, 5]);
}

#[test]
fn machine_rows_start_out_as_zeros() {
    assert_eq!(Word::<u64>::default(), Word([0, 0, 0, 0]));
    assert_eq!(Mul32Cols::<u64>::default().to_row(), vec![0; 18]);
    assert_eq!(Bitwise32Cols::<u64>::default().to_row(), vec![0; 79]);
    assert_eq!(MemoryCols::<u64>::default().to_row(), vec![0; 14]);
    assert_eq!(OutputCols::<u64>::default().to_row(), vec![0; 5]);
}

use surge::field::{Fp, JoltField, FP_MODULUS};
use surge::instruction::JoltInstruction;
use surge::preprocessing::SurgePreprocessing;
use surge::xor::XORInstruction;

const P: u64 = FP_MODULUS;

type Xor = XORInstruction<32>;

fn fps(values: &[u64]) -> Vec<Fp> {
    values.iter().map(|v| Fp::new(*v)).collect()
}

#[test]
fn xor_has_one_subtable_of_degree_one() {
    assert_eq!(Xor::num_subtables(4, 1 << 16), 1);
    assert_eq!(Xor::g_poly_degree(4), 1);
}

#[test]
fn xor_addresses_join_the_chunks_of_both_operands() {
    let op = XORInstruction::<32>(0x1234_5678, 0x9abc_def0);
    assert_eq!(op.to_indices(4, 16), vec![0x129a, 0x34bc, 0x56de, 0x78f0]);
    // chunks beyond the operands are empty
    assert_eq!(op.to_indices(2, 16), vec![0x56de, 0x78f0]);
    let wide = XORInstruction::<64>(u64::MAX, 0);
    assert_eq!(wide.to_indices(9, 16), vec![0, 0xff00, 0xff00, 0xff00, 0xff00, 0xff00, 0xff00, 0xff00, 0xff00]);
}

#[test]
fn xor_addresses_of_four_bits() {
    let op = XORInstruction::<8>(0b0110, 0b0011);
    assert_eq!(op.to_indices(2, 4), vec![0b0100, 0b1011]);
}

#[test]
fn xor_subtable_holds_the_xor_of_the_halves_of_the_address() {
    let table = Xor::materialize_subtable(0, 4, 1 << 16);
    assert_eq!(table.len(), 1 << 16);
    assert_eq!(table[0x129a], 0x12 ^ 0x9a);
    assert_eq!(table[0xffff], 0);
    assert_eq!(table[0xff00], 0xff);
    for (address, entry) in table.iter().enumerate() {
        assert_eq!(*entry as usize, (address >> 8) ^ (address & 0xff));
    }
}

#[test]
fn xor_subtable_of_sixteen_entries() {
    let table = XORInstruction::<8>::materialize_subtable(0, 2, 16);
    assert_eq!(table, vec![0, 1, 2, 3, 1, 0, 3, 2, 2, 3, 0, 1, 3, 2, 1, 0]);
}

#[test]
fn xor_collation_concatenates_the_chunks() {
    let vals = fps(&[1, 2, 3, 4]);
    assert_eq!(Xor::combine_lookups(&vals, 4, 1 << 16).to_u64(), 0x0102_0304);
    let vals = fps(&[3, 1]);
    assert_eq!(XORInstruction::<8>::combine_lookups(&vals, 2, 16).to_u64(), 0b1101);
}

#[test]
fn xor_lookup_is_the_collation_of_the_subtable_entries() {
    let (x, y) = (0xdead_beefu64, 0x0bad_f00du64);
    let op = XORInstruction::<32>(x, y);
    let table = Xor::materialize_subtable(0, 4, 1 << 16);
    let vals: Vec<Fp> =
        op.to_indices(4, 16).iter().map(|address| Fp::new(table[*address] as u64)).collect();
    assert_eq!(Xor::combine_lookups(&vals, 4, 1 << 16).to_u64(), x ^ y);
}

#[test]
fn xor_extension_agrees_with_the_subtable_on_corners() {
    let table = XORInstruction::<8>::materialize_subtable(0, 2, 16);
    for address in 0..16u64 {
        let bits: Vec<u64> = (0..4).map(|i| (address >> (3 - i)) & 1).collect();
        let value = XORInstruction::<8>::evaluate_subtable_mle(0, &fps(&bits), 2, 16);
        assert_eq!(value.to_u64(), table[address as usize] as u64);
    }
}

#[test]
fn xor_extension_off_the_corners() {
    // bits of x: (2, 3), bits of y: (5, 7):
    // 2 * ((1-2)5 + 2(1-5)) + ((1-3)7 + 3(1-7)) = 2 * (-13) - 32
    let value = XORInstruction::<8>::evaluate_subtable_mle(0, &fps(&[2, 3, 5, 7]), 2, 16);
    assert_eq!(value.to_u64(), P - 58);
}

#[test]
fn preprocessing_holds_the_subtables_of_the_family() {
    let preprocessing = SurgePreprocessing::<Fp, XORInstruction<8>, 2, 16>::preprocess();
    assert_eq!(preprocessing.num_subtables(), 1);
    let table = XORInstruction::<8>::materialize_subtable(0, 2, 16);
    for address in 0..16 {
        assert_eq!(preprocessing.entry(0, address), table[address]);
    }
    assert_eq!(Fp::zero().to_u64(), 0);
}

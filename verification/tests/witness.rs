use surge::field::{Fp, JoltField};
use surge::leaves::compute_leaves;
use surge::preprocessing::SurgePreprocessing;
use surge::witness::generate_witness;
use surge::xor::XORInstruction;

#[test]
fn witness_counts_reads_per_address() {
    let pre = SurgePreprocessing::<Fp, XORInstruction<8>, 2, 16>::preprocess();
    assert_eq!(pre.num_subtables(), 1);
    // addresses: upper operand chunk joined with lower operand chunk, two bits each
    assert_eq!(pre.entry(0, 0b1001), 0b11);
    let ops = vec![XORInstruction::<8>(0b0110, 0b0011), XORInstruction::<8>(0b0110, 0b0011), XORInstruction::<8>(0, 0)];
    let polys = generate_witness(&pre, &ops);
    assert_eq!(polys.dim.len(), 2);
    assert_eq!(polys.dim[0].as_u16(), &vec![0b0100u16, 0b0100, 0, 0]);
    assert_eq!(polys.dim[1].as_u16(), &vec![0b1011u16, 0b1011, 0, 0]);
    assert_eq!(polys.read_cts[0].as_u32(), &vec![0u32, 1, 0, 1]);
    assert_eq!(polys.read_cts[1].as_u32(), &vec![0u32, 1, 0, 1]);
    assert_eq!(polys.final_cts[0].as_u32()[0], 2);
    assert_eq!(polys.final_cts[0].as_u32()[4], 2);
    assert_eq!(polys.final_cts[1].as_u32()[0b1011], 2);
    assert_eq!(polys.E_polys[0].as_u32(), &vec![0b01u32, 0b01, 0, 0]);
    assert_eq!(polys.E_polys[1].as_u32(), &vec![0b01u32, 0b01, 0, 0]);
    let gamma = Fp::new(5);
    let tau = Fp::new(3);
    let ((rw, rw_groups), (init_final, if_groups)) = compute_leaves(&pre, &polys, &gamma, &tau);
    assert_eq!(rw_groups, 4);
    assert_eq!(if_groups, 4);
    assert_eq!(rw.len(), 16);
    assert_eq!(init_final.len(), 64);
    // first read of memory 0: t = 0, v = 1, a = 4: 0 * 25 + 1 * 5 + 4 - 3
    assert_eq!(rw[0].to_u64(), 6);
    // its write adds gamma^2
    assert_eq!(rw[4].to_u64(), 31);
}

use ark_std::rand::RngCore;
use surge::field::{Fp, JoltField, FP_MODULUS};
use surge::fingerprint::fingerprint;
use surge::leaves::compute_leaves;
use surge::memory::{memory_to_dimension_index, memory_to_subtable_index, num_memories};
use surge::preprocessing::SurgePreprocessing;
use surge::witness::generate_witness;
use surge::xor::XORInstruction;

const P: u64 = FP_MODULUS;

type Xor = XORInstruction<8>;

fn random_ops(num_ops: usize) -> Vec<Xor> {
    let mut rng = ark_std::test_rng();
    std::iter::repeat_with(|| XORInstruction::<8>(rng.next_u32() as u64 & 0xff, rng.next_u32() as u64 & 0xff))
        .take(num_ops)
        .collect()
}

fn sorted(mut leaves: Vec<u64>) -> Vec<u64> {
    leaves.sort();
    leaves
}

#[test]
fn fingerprint_is_t_gamma_squared_plus_v_gamma_plus_a_minus_tau() {
    let f = |a: u64, v: u64, t: u64, gamma: u64, tau: u64| {
        fingerprint(&(Fp::new(a), Fp::new(v), Fp::new(t)), &Fp::new(gamma), &Fp::new(tau)).to_u64()
    };
    assert_eq!(f(4, 1, 0, 5, 3), 6);
    assert_eq!(f(4, 1, 2, 5, 3), 56);
    assert_eq!(f(0, 0, 0, 5, 1), P - 1);
    assert_eq!(f(7, 0, 0, 0, 0), 7);
    assert_eq!(f(0, 1, 1, P - 1, 0), 0);
}

#[test]
fn write_fingerprint_exceeds_read_fingerprint_by_gamma_squared() {
    let mut rng = ark_std::test_rng();
    for _ in 0..200 {
        let mut draw = || Fp::new(rng.next_u64());
        let (a, v, t, gamma, tau) = (draw(), draw(), draw(), draw(), draw());
        let read = fingerprint(&(a, v, t), &gamma, &tau);
        let write = fingerprint(&(a, v, t.add(&Fp::one())), &gamma, &tau);
        assert_eq!(write.sub(&read), gamma.square());
    }
}

#[test]
fn final_fingerprint_exceeds_init_fingerprint_by_count_times_gamma_squared() {
    let mut rng = ark_std::test_rng();
    for _ in 0..200 {
        let count = Fp::new(rng.next_u32() as u64);
        let mut draw = || Fp::new(rng.next_u64());
        let (a, v, gamma, tau) = (draw(), draw(), draw(), draw());
        let init = fingerprint(&(a, v, Fp::zero()), &gamma, &tau);
        let fin = fingerprint(&(a, v, count), &gamma, &tau);
        assert_eq!(fin.sub(&init), count.mul(&gamma.square()));
    }
}

#[test]
fn memory_indices_pair_every_dimension_with_every_subtable_once() {
    let (c, subtables) = (4usize, 3usize);
    let mut seen = vec![vec![false; subtables]; c];
    for memory in 0..c * subtables {
        let dimension = memory_to_dimension_index(memory, c);
        let subtable = memory_to_subtable_index(memory, c);
        assert!(dimension < c && subtable < subtables);
        assert!(!seen[dimension][subtable]);
        seen[dimension][subtable] = true;
        assert_eq!(subtable * c + dimension, memory);
    }
    assert!(seen.iter().all(|row| row.iter().all(|pair| *pair)));
    assert_eq!(memory_to_dimension_index(6, 4), 2);
    assert_eq!(memory_to_subtable_index(6, 4), 1);
    assert_eq!(num_memories::<Xor>(4, 16), 4);
}

#[test]
fn every_row_writes_the_counter_it_read_plus_one() {
    for num_ops in [0usize, 1, 5, 8, 13] {
        let preprocessing = SurgePreprocessing::<Fp, Xor, 2, 16>::preprocess();
        let polys = generate_witness(&preprocessing, &random_ops(num_ops));
        let rows = num_ops.next_power_of_two();
        for d in 0..2 {
            let dim = polys.dim[d].as_u16();
            let read = polys.read_cts[d].as_u32();
            let fin = polys.final_cts[d].as_u32();
            assert_eq!(dim.len(), rows);
            assert_eq!(read.len(), rows);
            assert_eq!(fin.len(), 16);
            let mut counters = vec![0u32; 16];
            for row in 0..rows {
                if row >= num_ops {
                    assert_eq!(dim[row], 0);
                }
                let address = dim[row] as usize;
                assert_eq!(read[row], counters[address]);
                counters[address] = read[row] + 1;
            }
            assert_eq!(&counters, fin);
            assert_eq!(fin.iter().sum::<u32>() as usize, rows);
        }
    }
}

#[test]
fn padded_rows_read_address_zero() {
    let preprocessing = SurgePreprocessing::<Fp, Xor, 2, 16>::preprocess();
    let ops = vec![XORInstruction::<8>(0xff, 0xff); 3];
    let polys = generate_witness(&preprocessing, &ops);
    assert_eq!(polys.dim[0].as_u16(), &vec![15u16, 15, 15, 0]);
    assert_eq!(polys.read_cts[0].as_u32(), &vec![0u32, 1, 2, 0]);
    assert_eq!(polys.final_cts[0].as_u32()[0], 1);
    assert_eq!(polys.final_cts[0].as_u32()[15], 3);
    assert_eq!(polys.E_polys[0].as_u32(), &vec![0u32, 0, 0, 0]);
    assert!(polys.a_init_final.is_none());
    assert!(polys.v_init_final.is_none());
}

#[test]
fn reads_and_final_state_are_writes_and_initial_state() {
    for num_ops in [0usize, 1, 7, 16, 100] {
        let preprocessing = SurgePreprocessing::<Fp, Xor, 2, 16>::preprocess();
        let polys = generate_witness(&preprocessing, &random_ops(num_ops));
        let rows = num_ops.next_power_of_two();
        let gamma = Fp::new(0x1234_5678_9abc);
        let tau = Fp::new(0xfeed_beef);
        let ((read_write, groups), (init_final, _)) =
            compute_leaves(&preprocessing, &polys, &gamma, &tau);
        assert_eq!(groups, 4);
        assert_eq!(read_write.len(), 4 * rows);
        assert_eq!(init_final.len(), 4 * 16);
        for memory in 0..2 {
            let group = |leaves: &Vec<Fp>, size: usize, g: usize| -> Vec<u64> {
                leaves[g * size..(g + 1) * size].iter().map(Fp::to_u64).collect()
            };
            let mut left = group(&read_write, rows, 2 * memory);
            left.extend(group(&init_final, 16, 2 * memory + 1));
            let mut right = group(&read_write, rows, 2 * memory + 1);
            right.extend(group(&init_final, 16, 2 * memory));
            assert_eq!(sorted(left), sorted(right));
        }
    }
}

#[test]
fn leaves_are_the_fingerprints_of_the_trace() {
    let preprocessing = SurgePreprocessing::<Fp, Xor, 2, 16>::preprocess();
    let ops = random_ops(6);
    let polys = generate_witness(&preprocessing, &ops);
    let (gamma, tau) = (Fp::new(11), Fp::new(5));
    let ((read_write, _), (init_final, _)) = compute_leaves(&preprocessing, &polys, &gamma, &tau);
    for memory in 0..2usize {
        let dim = polys.dim[memory].as_u16();
        let values = polys.E_polys[memory].as_u32();
        let read = polys.read_cts[memory].as_u32();
        let fin = polys.final_cts[memory].as_u32();
        for row in 0..8 {
            let tuple = |t: u32| {
                (Fp::new(dim[row] as u64), Fp::new(values[row] as u64), Fp::new(t as u64))
            };
            assert_eq!(read_write[2 * memory * 8 + row], fingerprint(&tuple(read[row]), &gamma, &tau));
            assert_eq!(
                read_write[(2 * memory + 1) * 8 + row],
                fingerprint(&tuple(read[row] + 1), &gamma, &tau)
            );
        }
        for address in 0..16usize {
            let tuple = |t: u32| {
                (
                    Fp::new(address as u64),
                    Fp::new(preprocessing.entry(0, address) as u64),
                    Fp::new(t as u64),
                )
            };
            assert_eq!(init_final[2 * memory * 16 + address], fingerprint(&tuple(0), &gamma, &tau));
            assert_eq!(
                init_final[(2 * memory + 1) * 16 + address],
                fingerprint(&tuple(fin[address]), &gamma, &tau)
            );
        }
    }
}

#[test]
fn padded_rows_find_the_counter_of_address_zero_where_it_was_left() {
    let preprocessing = SurgePreprocessing::<Fp, Xor, 2, 16>::preprocess();
    // in dimension 1 the lookups read the addresses 0, 3, 0, 0, 5
    let ops = vec![
        XORInstruction::<8>(0, 0),
        XORInstruction::<8>(0, 3),
        XORInstruction::<8>(0, 0),
        XORInstruction::<8>(4, 0),
        XORInstruction::<8>(1, 1),
    ];
    let polys = generate_witness(&preprocessing, &ops);
    assert_eq!(polys.dim[1].as_u16(), &vec![0u16, 3, 0, 0, 5, 0, 0, 0]);
    // three lookups read address 0, then the padded rows follow one another
    assert_eq!(polys.read_cts[1].as_u32(), &vec![0u32, 0, 1, 2, 0, 3, 4, 5]);
    assert_eq!(polys.final_cts[1].as_u32()[0], 6);
    assert_eq!(polys.final_cts[1].as_u32()[3], 1);
    assert_eq!(polys.final_cts[1].as_u32()[5], 1);
}

#[test]
fn a_write_is_the_next_read_of_the_address_or_its_final_counter() {
    let preprocessing = SurgePreprocessing::<Fp, Xor, 2, 16>::preprocess();
    let polys = generate_witness(&preprocessing, &random_ops(50));
    for d in 0..2 {
        let dim = polys.dim[d].as_u16();
        let read = polys.read_cts[d].as_u32();
        let fin = polys.final_cts[d].as_u32();
        for row in 0..dim.len() {
            let written = read[row] + 1;
            match (row + 1..dim.len()).find(|next| dim[*next] == dim[row]) {
                Some(next) => assert_eq!(read[next], written),
                None => assert_eq!(fin[dim[row] as usize], written),
            }
        }
    }
}

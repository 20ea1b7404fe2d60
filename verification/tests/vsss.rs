use ark_ec::{CurveGroup, PrimeGroup};
use ark_ff::{BigInt, BigInteger, PrimeField, UniformRand};
use ark_secp256k1::{Fr, Projective};
use garbled_snark_verifier::gate::{Delta, GarbledWire};
use garbled_snark_verifier::modes::evaluate::EvaluatedWire;
use garbled_snark_verifier::s::S;
use garbled_snark_verifier::vsss::commits::ShareCommits;
use garbled_snark_verifier::vsss::digits::neg_pos_sum_of_powers_of_two;
use garbled_snark_verifier::vsss::field::Scalar;
use garbled_snark_verifier::vsss::interpolation::{
    lagrange_interpolate_whole_polynomial, Linear, Polynomial,
};
use garbled_snark_verifier::vsss::points::{Point, Secp256k1};
use garbled_snark_verifier::vsss::types::transpose;
use garbled_snark_verifier::vsss::wide_garbling::GarbledWideLabelTable;
use rand::seq::index::sample;
use rand::{Rng, SeedableRng};
use rand_chacha::ChaCha20Rng;
use std::collections::HashSet;

fn scalar(x: &Fr) -> Scalar {
    Scalar::from_limbs(x.into_bigint().0).expect("reduced")
}

fn fr(x: &Scalar) -> Fr {
    Fr::new(BigInt(x.to_limbs()))
}

fn point(p: &Projective) -> Point {
    let a = p.into_affine();
    Point { x: a.x.into_bigint().0, y: a.y.into_bigint().0, infinity: a.infinity }
}

fn random_polynomial(rng: &mut impl Rng, degree: usize) -> Polynomial<Scalar> {
    Polynomial((0..degree + 1).map(|_| scalar(&Fr::rand(rng))).collect())
}

#[test]
fn test_commit_verification() {
    let polynomial_degree = 3;
    let secp = Secp256k1::new();
    let polynomial = random_polynomial(&mut rand::thread_rng(), polynomial_degree);
    let num_shares = polynomial_degree + 1;
    let poly_commits = polynomial.coefficient_commits(&secp);
    let share_commits = polynomial.share_commits(&secp, num_shares);
    share_commits.verify(&poly_commits).unwrap();
    let shares = polynomial.shares(num_shares);
    share_commits.verify_shares(&secp, &shares).unwrap();
}

#[test]
fn test_batch_mul() {
    let secp = Secp256k1::new();
    let coeffs = (0..174).map(|_| Fr::rand(&mut rand::thread_rng())).collect::<Vec<_>>();
    let scalars: Vec<Scalar> = coeffs.iter().map(scalar).collect();
    let vals_batched = secp.generator_batch_mul(&scalars);
    let generator = Projective::generator();
    let vals_unbatched = coeffs.iter().map(|c| point(&(generator * c))).collect::<Vec<_>>();
    assert_eq!(vals_batched, vals_unbatched);
}

#[test]
fn test_interpolation() {
    for (n_revealed, n_hidden) in [(5usize, 2usize), (100, 10), (175, 7)] {
        let n_total = n_revealed + n_hidden;
        let mut seed_rng = ChaCha20Rng::seed_from_u64(42);
        let hidden_points = sample(&mut seed_rng, n_total, n_hidden)
            .into_vec()
            .into_iter()
            .map(|x| x + 1)
            .collect::<Vec<_>>();
        let polynomial = random_polynomial(&mut seed_rng, n_revealed - 1);
        let points = polynomial.shares(n_total);
        let aux_set: HashSet<_> = hidden_points.iter().copied().collect();
        let known_points: Vec<(usize, Scalar)> =
            points.clone().into_iter().filter(|(x, _)| !aux_set.contains(x)).collect();
        let answer = lagrange_interpolate_whole_polynomial(&known_points, &hidden_points);
        for (x, y) in hidden_points.into_iter().zip(answer.into_iter()) {
            assert_eq!(points[x].1, y);
            assert_eq!(polynomial.eval_at(x), y);
        }
    }
}

#[test]
fn test_suffix_interpolation() {
    for (n_revealed, n_hidden) in [(5usize, 2usize), (100, 10), (175, 7)] {
        let n_total = n_revealed + n_hidden;
        let mut seed_rng = ChaCha20Rng::seed_from_u64(42);
        let polynomial = random_polynomial(&mut seed_rng, n_revealed - 1);
        let points = polynomial.shares(n_total);
        let answer = polynomial.eval_at_suffix_points::<false>(n_hidden);
        for (x, y) in (n_revealed..n_total).zip(answer.into_iter()) {
            assert_eq!(points[x].1, y);
            assert_eq!(polynomial.eval_at(x), y);
        }
    }
}

#[test]
fn test_garbled_wide_label_table_lookup() {
    let mut rng = rand::thread_rng();
    let delta = Delta(S::from_u128(rng.gen()));
    for num_bits in [2usize, 8] {
        let num_labels = 2u32.pow(num_bits as u32);
        let bit_labels: Vec<GarbledWire> = (0..num_bits)
            .map(|_| {
                let label0 = S::from_u128(rng.gen());
                GarbledWire::new(label0, label0 ^ &delta.0)
            })
            .collect();
        let byte_labels: Vec<Scalar> =
            (0..num_labels).map(|_| scalar(&Fr::rand(&mut rng))).collect();
        let table = GarbledWideLabelTable::new(&byte_labels, &bit_labels);
        let expected_vals: Vec<Vec<EvaluatedWire>> = (0..num_labels)
            .map(|i| {
                (0..num_bits)
                    .map(|bit| {
                        if ((i >> (num_bits - bit - 1)) & 1) == 0 {
                            EvaluatedWire::new(bit_labels[bit].label0, false)
                        } else {
                            EvaluatedWire::new(bit_labels[bit].label1, true)
                        }
                    })
                    .collect()
            })
            .collect();
        for (i, (byte_label, expected)) in byte_labels.iter().zip(expected_vals.iter()).enumerate()
        {
            let recovered_bit_labels = table.lookup_evaluated_wires(byte_label);
            assert_eq!(&recovered_bit_labels[..], &expected[..]);
            assert_eq!(table.lookup_index(byte_label), i);
            let labels: Vec<S> = expected.iter().map(|w| w.active_label).collect();
            assert_eq!(table.lookup(byte_label), labels);
        }
        println!("table size: {}", table.0.iter().flatten().count());
    }
}

#[test]
fn unknown_label_finds_no_row() {
    let labels: Vec<Scalar> = (1..5).map(Scalar::from_u64).collect();
    let wires = vec![
        GarbledWire::new(S::from_u128(1), S::from_u128(2)),
        GarbledWire::new(S::from_u128(3), S::from_u128(4)),
    ];
    let table = GarbledWideLabelTable::new(&labels, &wires);
    assert!(table.try_lookup(&Scalar::from_u64(99)).is_none());
    assert!(table.find_row(&Scalar::from_u64(99)).is_none());
    let (i, found) = table.try_lookup(&labels[2]).unwrap();
    assert_eq!(i, 2);
    assert_eq!(found[0], EvaluatedWire::new(S::from_u128(2), true));
    assert_eq!(found[1], EvaluatedWire::new(S::from_u128(3), false));
    assert_eq!(table.try_lookup_labels(&labels[2]).unwrap().1, vec![S::from_u128(2), S::from_u128(3)]);
    let short = GarbledWideLabelTable(vec![vec![0u8; 5]; 4]);
    assert!(short.find_row(&labels[0]).is_none());
    assert!(GarbledWideLabelTable(Vec::new()).find_row(&labels[0]).is_none());
}

#[test]
fn rows_are_masked_with_extended_output() {
    let labels = [Scalar::from_u64(7), Scalar::from_u64(8)];
    let wire = GarbledWire::new(S::from_u128(5), S::from_u128(6));
    let table = GarbledWideLabelTable::new(&labels, &[wire]);
    let mut mask = vec![0u8; 32];
    blake3::Hasher::new()
        .update(&fr(&labels[1]).into_bigint().to_bytes_le())
        .finalize_xof()
        .fill(&mut mask);
    let mut clear = wire.label1.to_bytes().to_vec();
    clear.extend_from_slice(&[0u8; 16]);
    let row: Vec<u8> = clear.iter().zip(&mask).map(|(a, b)| a ^ b).collect();
    assert_eq!(table.0[1], row);
    let hash = GarbledWideLabelTable::aggregate_hash(&[table]);
    assert_ne!(hash, [0u8; 32]);
}

#[test]
fn tables_cover_all_bits() {
    let wires: Vec<GarbledWire> =
        (0..10).map(|i| GarbledWire::new(S::from_u128(i), S::from_u128(100 + i))).collect();
    let labels: Vec<Scalar> = (0..256 + 4).map(|i| Scalar::from_u64(1000 + i)).collect();
    let tables = GarbledWideLabelTable::build_all(&labels, &wires);
    assert_eq!(tables.len(), 2);
    assert_eq!(tables[0].0.len(), 256);
    assert_eq!(tables[1].0.len(), 4);
    assert_eq!(tables[1].lookup_index(&labels[256 + 3]), 3);
    let mut all = Vec::new();
    for t in &tables {
        for row in &t.0 {
            all.extend_from_slice(row);
        }
    }
    assert_eq!(GarbledWideLabelTable::aggregate_hash(&tables), *blake3::hash(&all).as_bytes());
}

#[test]
fn scalars_compute_modulo_the_order() {
    let mut rng = ChaCha20Rng::seed_from_u64(1);
    for _ in 0..20 {
        let (a, b) = (Fr::rand(&mut rng), Fr::rand(&mut rng));
        let (x, y) = (scalar(&a), scalar(&b));
        assert_eq!(fr(&x.plus(&y)), a + b);
        assert_eq!(fr(&x.minus(&y)), a - b);
        assert_eq!(fr(&x.times(&y)), a * b);
        assert_eq!(fr(&x.negated()), -a);
        assert_eq!(x.times(&x.inverse().unwrap()), Scalar::from_u64(1));
        assert_eq!(x.to_bytes_le(), a.into_bigint().to_bytes_le());
        assert_eq!(x.to_bits_le(), a.into_bigint().to_bits_le());
    }
    assert!(Scalar::from_u64(0).inverse().is_none());
    assert!(Scalar::from_limbs([u64::MAX; 4]).is_none());
    let top = [0xbfd25e8cd0364140, 0xbaaedce6af48a03b, 0xfffffffffffffffe, 0xffffffffffffffff];
    assert!(Scalar::from_limbs(top).is_some());
    let order = [0xbfd25e8cd0364141, 0xbaaedce6af48a03b, 0xfffffffffffffffe, 0xffffffffffffffff];
    assert!(Scalar::from_limbs(order).is_none());
}

#[test]
fn points_form_a_group() {
    let secp = Secp256k1::new();
    let (a, b) = (Scalar::from_u64(5), Scalar::from_u64(9));
    let (p, q) = (secp.windowed_mul(&a), secp.windowed_mul(&b));
    assert_eq!(p.sum(&q), secp.windowed_mul(&Scalar::from_u64(14)));
    assert_eq!(q.difference(&p), secp.windowed_mul(&Scalar::from_u64(4)));
    assert_eq!(p.multiple(&b), secp.windowed_mul(&Scalar::from_u64(45)));
    assert_eq!(p.difference(&p), Point::zero());
    assert!(Point::zero().infinity);
    assert_eq!(secp.windowed_mul(&Scalar::from_u64(0)), Point::zero());
    assert_eq!(secp.windowed_mul(&Scalar::from_u64(1)), point(&Projective::generator()));
}

#[test]
fn tables_of_doublings_give_the_same_points() {
    let secp = Secp256k1::new();
    let mut rng = ChaCha20Rng::seed_from_u64(2);
    let polynomial = random_polynomial(&mut rng, 2);
    let commits = polynomial.coefficient_commits(&secp);
    let with = commits.0.eval_at_suffix_points::<true>(3);
    let without = commits.0.eval_at_suffix_points::<false>(3);
    assert_eq!(with, without);
    let shares = polynomial.shares(6);
    for i in 0..3 {
        assert_eq!(with[i], secp.windowed_mul(&shares[3 + i].1));
        assert_eq!(commits.0.eval_at(3 + i), with[i]);
    }
}

#[test]
fn wrong_commitments_and_shares_are_refused() {
    let secp = Secp256k1::new();
    let mut rng = ChaCha20Rng::seed_from_u64(3);
    let polynomial = random_polynomial(&mut rng, 2);
    let poly_commits = polynomial.coefficient_commits(&secp);
    let good = polynomial.share_commits(&secp, 5);
    good.verify(&poly_commits).unwrap();
    for i in 0..5 {
        let mut points = good.0.clone();
        points[i] = secp.windowed_mul(&Scalar::from_u64(1));
        let bad = ShareCommits(points);
        assert_eq!(bad.verify(&poly_commits), Err("Share commit verification failed".to_string()));
    }
    let shares = polynomial.shares(5);
    assert_eq!(good.verify_shares(&secp, &[shares[4], shares[1]]), Ok(()));
    assert_eq!(
        good.verify_shares(&secp, &[shares[1], shares[3], shares[1]]),
        Err("Duplicate share index found".to_string())
    );
    assert_eq!(
        good.verify_shares(&secp, &[(5, shares[1].1)]),
        Err("Share index out of bounds".to_string())
    );
    assert_eq!(
        good.verify_shares(&secp, &[(2, shares[1].1)]),
        Err("Share verification failed".to_string())
    );
}

#[test]
fn shares_of_a_line() {
    let p = Polynomial(vec![Scalar::from_u64(3), Scalar::from_u64(5)]);
    let shares = p.shares(5);
    let values: Vec<u64> = shares.iter().map(|(_, s)| s.to_limbs()[0]).collect();
    assert_eq!(values, vec![3, 5, 7, 9, 11]);
    let missing = lagrange_interpolate_whole_polynomial(&[shares[4], shares[2]], &[0, 1, 3]);
    assert_eq!(missing, vec![shares[0].1, shares[1].1, shares[3].1]);
    assert_eq!(p.eval_at(7), Scalar::from_u64(17));
    assert_eq!(p.eval_at((1 << 32) + 1), Scalar::from_u64(3 + 2 * ((1 << 32) + 1)));
}

#[test]
fn signed_digits_are_sparse() {
    let bits: Vec<bool> = vec![true, true, true, false, true, true];
    let digits = neg_pos_sum_of_powers_of_two(&bits);
    assert_eq!(digits.len(), 7);
    let value: i64 = digits.iter().enumerate().map(|(i, d)| (*d as i64) << i).sum();
    assert_eq!(value, 0b110111);
    for w in digits.windows(2) {
        assert!(w[0] == 0 || w[1] == 0);
    }
}

#[test]
fn columns_become_rows() {
    let m = vec![vec![1, 2, 3], vec![4, 5, 6]];
    assert_eq!(transpose(&m), vec![vec![1, 4], vec![2, 5], vec![3, 6]]);
}

#[test]
fn revealed_shares_and_one_more_give_all() {
    let n = 181;
    let k = 181 - 7;
    let secp = Secp256k1::new();
    let mut rng = rand::thread_rng();
    let polynomial = random_polynomial(&mut rng, k);
    let coefficient_commits = polynomial.coefficient_commits(&secp);
    let share_commits = polynomial.share_commits(&secp, n);
    share_commits.verify(&coefficient_commits).expect("Share commit verification failed");
    let selected_indices = sample(&mut rng, n, k).into_vec();
    let all_shares = polynomial.shares(n);
    let mut shares: Vec<(usize, Scalar)> = selected_indices.iter().map(|i| all_shares[*i]).collect();
    share_commits.verify_shares(&secp, &shares).expect("Share verification failed");
    let unused = (0..n).find(|i| !selected_indices.contains(i)).unwrap();
    assert_eq!(share_commits.0[unused], secp.windowed_mul(&all_shares[unused].1));
    shares.push(all_shares[unused]);
    let missing_points: Vec<usize> =
        (0..n).filter(|&i| shares.iter().all(|(j, _)| i != *j)).collect();
    let missing_shares = lagrange_interpolate_whole_polynomial(&shares, &missing_points);
    for (x, y) in missing_points.into_iter().zip(missing_shares.into_iter()) {
        assert_eq!(all_shares[x].1, y)
    }
}

use std::collections::HashSet;

use arkeion::exec::random::next_random;
use arkeion::ivf;
use arkeion::pq::{split, Pq, CENTROIDS};

fn dist2(a: &[f32], b: &[f32]) -> f32 {
    a.iter().zip(b).map(|(x, y)| (x - y) * (x - y)).sum()
}

fn distances(v: &[f32], to: &[Vec<f32>]) -> Vec<u32> {
    to.iter().map(|c| dist2(c, v).to_bits()).collect()
}

/// Seeded k-means on the sample that the library chooses.
fn train(vectors: &[Vec<f32>], k: usize, max_iters: usize) -> Vec<Vec<f32>> {
    let n = vectors.len();
    if n == 0 {
        return Vec::new();
    }
    let k = k.clamp(1, n);
    let dim = vectors[0].len();
    let seed = ivf::training_state(n as u64, k as u64, dim as u64);
    let (places, mut state) = ivf::sample(n, k, seed);
    let sample: Vec<&Vec<f32>> = places.iter().map(|&i| &vectors[i]).collect();
    let m = sample.len();
    let mut centroids = vec![sample[next_random(&mut state) as u64 as usize % m].clone()];
    let mut d2: Vec<f32> = sample.iter().map(|v| dist2(v, &centroids[0])).collect();
    while centroids.len() < k {
        let sum: f64 = d2.iter().map(|&x| x as f64).sum();
        let r = next_random(&mut state) as u64;
        let pick = if sum <= 0.0 {
            r as usize % m
        } else {
            let mut t = (r as f64 / u64::MAX as f64) * sum;
            let mut p = m - 1;
            for (i, &x) in d2.iter().enumerate() {
                t -= x as f64;
                if t <= 0.0 {
                    p = i;
                    break;
                }
            }
            p
        };
        let c = sample[pick].clone();
        for (i, v) in sample.iter().enumerate() {
            d2[i] = d2[i].min(dist2(v, &c));
        }
        centroids.push(c);
    }
    for _ in 0..max_iters {
        let mut sums = vec![vec![0.0f64; dim]; k];
        let mut counts = vec![0usize; k];
        for v in &sample {
            let c = ivf::nearest(&distances(v, &centroids));
            counts[c] += 1;
            for (s, &x) in sums[c].iter_mut().zip(v.iter()) {
                *s += x as f64;
            }
        }
        let mut changed = false;
        for c in 0..k {
            if counts[c] > 0 {
                let mean: Vec<f32> =
                    sums[c].iter().map(|&s| (s / counts[c] as f64) as f32).collect();
                changed = changed || mean != centroids[c];
                centroids[c] = mean;
            }
        }
        if !changed {
            break;
        }
    }
    centroids
}

fn assign(vectors: &[Vec<f32>], centroids: &[Vec<f32>]) -> Vec<Vec<usize>> {
    let d = vectors.iter().map(|v| distances(v, centroids)).collect();
    ivf::assign(&d, centroids.len())
}

fn search(
    query: &[f32],
    centroids: &[Vec<f32>],
    lists: &Vec<Vec<usize>>,
    vectors: &[Vec<f32>],
    nprobe: usize,
    top_k: usize,
) -> Vec<usize> {
    ivf::search(&distances(query, centroids), lists, &distances(query, vectors), nprobe, top_k)
}

fn two_blobs() -> Vec<Vec<f32>> {
    vec![
        vec![0.0, 0.0],
        vec![0.1, -0.1],
        vec![-0.1, 0.2],
        vec![10.0, 10.0],
        vec![9.9, 10.1],
        vec![10.2, 9.8],
    ]
}

#[test]
fn train_finds_the_clusters() {
    let v = two_blobs();
    let cents = train(&v, 2, 25);
    assert_eq!(cents.len(), 2);
    let lists = assign(&v, &cents);
    let mut sizes: Vec<usize> = lists.iter().map(|l| l.len()).collect();
    sizes.sort_unstable();
    assert_eq!(sizes, vec![3, 3]);
}

#[test]
fn train_is_deterministic() {
    let v = two_blobs();
    assert_eq!(train(&v, 2, 25), train(&v, 2, 25));
}

#[test]
fn search_finds_nearest_in_probed_cluster() {
    let v = two_blobs();
    let cents = train(&v, 2, 25);
    let lists = assign(&v, &cents);
    let near_a = search(&[0.05, 0.05], &cents, &lists, &v, 1, 2);
    assert!(near_a.iter().all(|&i| i < 3), "deberían ser del blob A: {near_a:?}");
    assert_eq!(near_a.len(), 2);
}

#[test]
fn full_probe_equals_brute_force() {
    let v = two_blobs();
    let cents = train(&v, 2, 25);
    let lists = assign(&v, &cents);
    let q = [9.95, 10.0];
    let ivf = search(&q, &cents, &lists, &v, cents.len(), 1);
    let brute = (0..v.len())
        .min_by(|&i, &j| dist2(&v[i], &q).total_cmp(&dist2(&v[j], &q)))
        .unwrap();
    assert_eq!(ivf, vec![brute]);
}

#[test]
fn recall_is_high_on_clustered_data() {
    let (nc, per, dim) = (40usize, 75usize, 16usize);
    let mut st = 0x1234_5678u64;
    let mut rnd = || {
        st ^= st << 13;
        st ^= st >> 7;
        st ^= st << 17;
        (st >> 40) as f32 / (1u64 << 24) as f32
    };
    let centers: Vec<Vec<f32>> = (0..nc)
        .map(|c| (0..dim).map(|d| ((c * 7 + d * 3) % 23) as f32 * 2.0).collect())
        .collect();
    let mut data: Vec<Vec<f32>> = Vec::new();
    for c in &centers {
        for _ in 0..per {
            data.push(c.iter().map(|&x| x + (rnd() - 0.5) * 0.6).collect());
        }
    }
    let cents = train(&data, nc, 25);
    let lists = assign(&data, &cents);
    let k = 10;
    let (mut hits, mut total) = (0usize, 0usize);
    for qi in (0..data.len()).step_by(data.len() / 50) {
        let q = &data[qi];
        let ivf = search(q, &cents, &lists, &data, 4, k);
        let mut bf: Vec<(f32, usize)> =
            (0..data.len()).map(|i| (dist2(&data[i], q), i)).collect();
        bf.sort_by(|a, b| a.0.total_cmp(&b.0));
        let truth: HashSet<usize> = bf.iter().take(k).map(|&(_, i)| i).collect();
        hits += ivf.iter().filter(|i| truth.contains(i)).count();
        total += k;
    }
    let recall = hits as f64 / total as f64;
    assert!(recall >= 0.80, "recall@{k} = {recall:.3} (esperado ≥ 0.80)");
}

fn train_pq(vectors: &[Vec<f32>], m: usize, iters: usize) -> Pq {
    let dim = vectors[0].len();
    let (m, bounds) = split(m, dim);
    let books = (0..m)
        .map(|s| {
            let part: Vec<Vec<f32>> =
                vectors.iter().map(|v| v[bounds[s]..bounds[s + 1]].to_vec()).collect();
            train(&part, CENTROIDS, iters)
                .iter()
                .map(|c| c.iter().map(|x| x.to_bits()).collect())
                .collect()
        })
        .collect();
    Pq::new(m, dim, books)
}

fn part_distances(pq: &Pq, v: &[f32]) -> Vec<Vec<u32>> {
    let b = pq.bounds();
    (0..pq.m)
        .map(|s| {
            let book: Vec<Vec<f32>> = pq.codebooks()[s]
                .iter()
                .map(|c| c.iter().map(|&x| f32::from_bits(x)).collect())
                .collect();
            distances(&v[b[s]..b[s + 1]], &book)
        })
        .collect()
}

fn encode(pq: &Pq, v: &[f32]) -> Vec<u8> {
    pq.encode(&part_distances(pq, v))
}

fn adc_table(pq: &Pq, q: &[f32]) -> Vec<Vec<f32>> {
    part_distances(pq, q)
        .iter()
        .map(|d| d.iter().map(|&x| f32::from_bits(x)).collect())
        .collect()
}

fn adc_distance(table: &[Vec<f32>], code: &[u8]) -> f32 {
    code.iter().zip(table).map(|(&c, row)| row[c as usize]).sum()
}

fn clustered(nc: usize, per: usize, dim: usize) -> Vec<Vec<f32>> {
    let mut st = 0x9E37_79B9_7F4A_7C15u64;
    let mut rnd = move || {
        st ^= st << 13;
        st ^= st >> 7;
        st ^= st << 17;
        (st >> 40) as f32 / (1u64 << 24) as f32
    };
    let mut data = Vec::new();
    for c in 0..nc {
        let center: Vec<f32> = (0..dim).map(|d| ((c * 5 + d * 3) % 17) as f32).collect();
        for _ in 0..per {
            data.push(center.iter().map(|&x| x + (rnd() - 0.5) * 0.4).collect());
        }
    }
    data
}

#[test]
fn deterministic() {
    let data = clustered(8, 10, 16);
    let a = train_pq(&data, 4, 15);
    let b = train_pq(&data, 4, 15);
    for v in &data {
        assert_eq!(encode(&a, v), encode(&b, v));
    }
}

#[test]
fn adc_matches_exact_distance() {
    let data = clustered(8, 10, 16);
    let pq = train_pq(&data, 4, 20);
    let q = &data[5];
    let table = adc_table(&pq, q);
    for v in &data {
        let approx = adc_distance(&table, &encode(&pq, v));
        let exact = dist2(v, q);
        assert!(
            (approx - exact).abs() <= exact.max(1.0) * 0.5 + 2.0,
            "approx={approx} exact={exact}"
        );
    }
}

#[test]
fn adc_preserves_knn_order() {
    let data = clustered(12, 20, 24);
    let pq = train_pq(&data, 6, 20);
    let codes: Vec<Vec<u8>> = data.iter().map(|v| encode(&pq, v)).collect();
    let k = 10;
    let (mut hits, mut total) = (0usize, 0usize);
    for qi in (0..data.len()).step_by(data.len() / 20) {
        let q = &data[qi];
        let mut ex: Vec<(f32, usize)> =
            data.iter().enumerate().map(|(i, v)| (dist2(v, q), i)).collect();
        ex.sort_by(|a, b| a.0.total_cmp(&b.0));
        let truth: HashSet<usize> = ex.iter().take(k).map(|&(_, i)| i).collect();
        let table = adc_table(&pq, q);
        let mut ad: Vec<(f32, usize)> =
            codes.iter().enumerate().map(|(i, c)| (adc_distance(&table, c), i)).collect();
        ad.sort_by(|a, b| a.0.total_cmp(&b.0));
        hits += ad.iter().take(k).filter(|(_, i)| truth.contains(i)).count();
        total += k;
    }
    let recall = hits as f64 / total as f64;
    assert!(recall >= 0.80, "recall ADC@{k} = {recall:.3} (≥ 0.80)");
}

#[test]
fn serialize_roundtrip() {
    let data = clustered(8, 10, 16);
    let pq = train_pq(&data, 4, 15);
    let pq2 = Pq::from_bytes(&pq.to_bytes()).expect("deserializa");
    assert_eq!(pq2.m, pq.m);
    assert_eq!(pq2.dim, pq.dim);
    for v in &data {
        assert_eq!(encode(&pq, v), encode(&pq2, v));
        assert_eq!(adc_table(&pq, v), adc_table(&pq2, v));
    }
}

#[test]
fn quantiser_bytes_are_laid_out_and_checked() {
    let pq = Pq::new(2, 3, vec![vec![vec![1]], vec![vec![2, 3], vec![4, 0x0102_0304]]]);
    let b = pq.to_bytes();
    let want = vec![
        2, 0, 3, 0, 1, 0, 1, 0, 0, 0, 2, 0, 2, 0, 0, 0, 3, 0, 0, 0, 4, 0, 0, 0, 4, 3, 2, 1,
    ];
    assert_eq!(b, want);
    assert_eq!(pq.bounds(), &vec![0, 1, 3]);
    for n in 0..b.len() {
        assert!(Pq::from_bytes(&b[..n]).is_none());
    }
    assert_eq!(split(9, 4).1, vec![0, 1, 2, 3, 4]);
    assert_eq!(split(0, 0).0, 1);
}

#[test]
fn nearest_prefers_the_first_and_skips_nan() {
    let d = |v: &[f32]| v.iter().map(|x| x.to_bits()).collect::<Vec<u32>>();
    assert_eq!(ivf::nearest(&d(&[3.0, 1.0, 1.0])), 1);
    assert_eq!(ivf::nearest(&d(&[f32::NAN, 5.0])), 1);
    assert_eq!(ivf::nearest(&d(&[f32::NAN, f32::INFINITY])), 0);
    assert_eq!(ivf::nearest(&Vec::new()), 0);
    assert_eq!(ivf::nearest(&d(&[0.0, -0.0, -1.0])), 2);
}

#[test]
fn probing_more_clusters_finds_more() {
    let d = |v: &[f32]| v.iter().map(|x| x.to_bits()).collect::<Vec<u32>>();
    let lists = vec![vec![0, 2], vec![1]];
    let cents = d(&[2.0, 1.0]);
    let vecs = d(&[0.5, 3.0, 0.25]);
    assert_eq!(ivf::search(&cents, &lists, &vecs, 0, 5), vec![1]);
    assert_eq!(ivf::search(&cents, &lists, &vecs, 9, 2), vec![2, 0]);
    assert_eq!(ivf::assign(&vec![d(&[2.0, 1.0]), d(&[0.0, 1.0])], 2), vec![vec![1], vec![0]]);
}

#[test]
fn large_data_is_sampled() {
    let (all, s) = ivf::sample(4096, 3, 7);
    assert_eq!((all.len(), all[4095], s), (4096, 4095, 7));
    let (some, s) = ivf::sample(100_000, 3, 7);
    assert_eq!(some.len(), 4096);
    assert!(some.windows(2).all(|w| w[0] < w[1]));
    assert_ne!(s, 7);
}

#[test]
fn probing_and_ranking_in_two_steps() {
    let bits = |d: &[f32]| d.iter().map(|x| x.to_bits()).collect::<Vec<u32>>();
    let lists = vec![vec![0usize, 3], vec![1], vec![2, 4]];
    let near = ivf::probe(&bits(&[5.0, 1.0, 2.0]), &lists, 2);
    assert_eq!(near, [1, 2, 4]);
    assert_eq!(ivf::closest(&near, &bits(&[3.0, 2.0, 1.0]), 2), [4, 2]);
    let all = bits(&[9.0, 3.0, 2.0, 9.0, 1.0]);
    assert_eq!(ivf::search(&bits(&[5.0, 1.0, 2.0]), &lists, &all, 2, 2), [4, 2]);
}

use bardecoder::decode::{Decode, QRDecoderWithInfo};
use qrmog::evolve::{accepts, diff_count, mutate, weighted_index, ERROR_CEILING};
use qrmog::qr::QR;
use qrmog::template::{placement_costs, Template};

fn read_candidate(q: &QR) -> Result<(String, u32), String> {
    let grid = bardecoder::util::qr::QRData::new(q.data.clone(), q.version);
    match QRDecoderWithInfo::new().decode(Ok(grid)) {
        Ok((text, info)) => Ok((text, info.errors)),
        Err(e) => Err(e.msg),
    }
}


#[test]
fn mutation_skips_functional_cells() {
    let parent = QR::make(b"HELLO", 2).expect("fits");
    // (0, 0) is in a finder pattern, (24, 24) is a data module
    let corner = 0;
    let free = 24 * 25 + 24;
    assert!(parent.is_functional(0, 0));
    assert!(!parent.is_functional(24, 24));
    let child = mutate(&parent, &vec![corner, free]);
    assert_eq!(child.data[corner], parent.data[corner]);
    assert_eq!(child.data[free], 1 - parent.data[free]);
    assert_eq!(diff_count(&child, &parent), 1);
    // toggled twice: back to the parent
    let twice = mutate(&parent, &vec![free, free, corner]);
    assert_eq!(twice.data, parent.data);
    assert!(twice.is_functional(0, 0));
}

#[test]
fn acceptance_gate() {
    let target = String::from("HELLO");
    assert!(accepts(&Ok((String::from("HELLO"), 0)), &target));
    assert!(accepts(&Ok((String::from("HELLO"), ERROR_CEILING - 1)), &target));
    assert!(!accepts(&Ok((String::from("HELLO"), ERROR_CEILING)), &target));
    assert!(!accepts(&Ok((String::from("HELLP"), 0)), &target));
    assert!(!accepts(&Err(String::from("bad format")), &target));
    let q = QR::make(b"HELLO", 2).expect("fits");
    assert!(accepts(&read_candidate(&q), &target));
    assert!(!accepts(&read_candidate(&q), &String::from("WORLD")));
}

#[test]
fn parent_rank_is_biased_low() {
    assert_eq!(weighted_index(0, 0, 1000), 0);
    assert_eq!(weighted_index(100, 0, 1000), 0);
    // 0.5 + 10 * 0.05 = 1.0
    assert_eq!(weighted_index(10, 50, 1000), 1);
    // 0.5 + 99 * 0.099 = 10.30
    assert_eq!(weighted_index(99, 99, 1000), 10);
    // 0.5 + 5 * 0.09 = 0.95
    assert_eq!(weighted_index(5, 90, 1000), 0);
}

#[test]
fn drift_penalty_counts_cells() {
    let a = QR::make(b"HELLO", 1).expect("fits");
    let mut b = a.clone();
    assert_eq!(diff_count(&a, &b), 0);
    b.data[5] = 1 - b.data[5];
    b.data[400] = 1 - b.data[400];
    assert_eq!(diff_count(&a, &b), 2);
}

fn score(q: &QR, reference: &QR, tpl: &Template, epoch: u32) -> f64 {
    let mut costs: Vec<f64> = placement_costs(q, tpl, 0).into_iter().map(|c| c as f64).collect();
    costs.sort_by(|a, b| a.partial_cmp(b).unwrap());
    let (start, end) = (0.2f64, 0.9f64);
    let falloff = end - (end - start) / (epoch as f64 / 100.0 + 1.0);
    let mut total = 0.0;
    let mut w = 1.0;
    for c in costs {
        total += w * c;
        w *= falloff;
    }
    total + diff_count(q, reference) as f64 / (q.side * q.side) as f64
}

struct Lcg(u64);

impl Lcg {
    fn next(&mut self, n: u64) -> u64 {
        self.0 = self.0.wrapping_mul(6364136223846793005).wrapping_add(1442695040888963407);
        (self.0 >> 33) % n
    }
}

#[test]
fn elite_score_never_worsens() {
    let target = String::from("HELLO");
    let original = QR::make(b"HELLO", 2).expect("fits");
    let tpl = Template {
        cells: (0..16).map(|i| ((i % 4 + i / 4) % 2) as u8).collect(),
        width: 4,
        height: 4,
    };
    let mut rng = Lcg(1);
    let mut population = vec![original.clone(); 6];
    let epoch = 0;
    let first = score(&original, &original, &tpl, epoch);
    let mut best_score = first;
    for _ in 0..15 {
        let mut scored: Vec<(f64, QR)> =
            population.into_iter().map(|q| (score(&q, &original, &tpl, epoch), q)).collect();
        scored.sort_by(|a, b| a.0.partial_cmp(&b.0).unwrap());
        let (s, best) = scored[0].clone();
        assert!(s <= best_score);
        best_score = s;
        assert_eq!(read_candidate(&best).unwrap().0, "HELLO");
        population = vec![best];
        while population.len() < 6 {
            let i = rng.next(scored.len() as u64) as usize;
            let parent = &scored[weighted_index(i, rng.next(100), 1000)].1;
            let count = 1 + rng.next(3) as usize;
            let cells: Vec<usize> = (0..count).map(|_| rng.next(625) as usize).collect();
            let child = mutate(parent, &cells);
            if accepts(&read_candidate(&child), &target) {
                population.push(child);
            }
        }
    }
    assert!(best_score < first);
}

use adder_codec::fenwick::{lowbit, FenwickModel, Histogram, ValueError};

#[test]
fn lowbit_is_the_lowest_set_bit() {
    assert_eq!(lowbit(1), 1);
    assert_eq!(lowbit(2), 2);
    assert_eq!(lowbit(12), 4);
    assert_eq!(lowbit(0x8000_0000), 0x8000_0000);
    assert_eq!(lowbit(0xffff), 1);
}

#[test]
fn histogram_counts_every_slot_once() {
    let h = Histogram::new(5);
    assert_eq!(h.symbols(), 5);
    assert_eq!(h.total, 6);
    for i in 0..=6 {
        assert_eq!(h.prefix(i), i as u64);
    }
    for v in 0..6 {
        assert_eq!(h.find(v), v as usize);
    }
}

#[test]
fn histogram_prefix_sums_follow_increments() {
    let mut h = Histogram::new(9);
    let bumps = [3usize, 3, 0, 9, 7, 3, 4, 4, 9, 9];
    let mut counts = [1u64; 10];
    for b in bumps {
        h.increment(b);
        counts[b] += 1;
        let mut sum = 0;
        for i in 0..10 {
            assert_eq!(h.prefix(i), sum);
            sum += counts[i];
        }
        assert_eq!(h.prefix(10), sum);
        assert_eq!(h.total, sum);
    }
    assert_eq!(h.counts, vec![2, 1, 1, 4, 3, 1, 1, 2, 1, 4]);
    // every cumulative value falls on the slot whose counts cover it
    let mut v = 0;
    for (slot, c) in counts.iter().enumerate() {
        for _ in 0..*c {
            assert_eq!(h.find(v), slot);
            v += 1;
        }
    }
}

#[test]
fn fresh_model_gives_every_symbol_one_count() {
    let model = FenwickModel::with_symbols(3, 1 << 20);
    assert_eq!(model.denominator(), 4);
    assert_eq!(model.max_denominator(), 1 << 20);
    assert_eq!(model.symbols(), 3);
    assert_eq!(model.probability(Some(&0)), Ok(0..1));
    assert_eq!(model.probability(Some(&1)), Ok(1..2));
    assert_eq!(model.probability(Some(&2)), Ok(2..3));
    // the end-of-sequence mark comes last
    assert_eq!(model.probability(None), Ok(3..4));
    assert_eq!(model.probability(Some(&3)), Err(ValueError(3)));
    assert_eq!(model.probability(Some(&77)), Err(ValueError(77)));
}

#[test]
fn update_widens_the_range_of_the_symbol() {
    let mut model = FenwickModel::with_symbols(3, 1 << 20);
    model.update(Some(&1));
    model.update(Some(&1));
    model.update(None);
    assert_eq!(model.denominator(), 7);
    assert_eq!(model.probability(Some(&0)), Ok(0..1));
    assert_eq!(model.probability(Some(&1)), Ok(1..4));
    assert_eq!(model.probability(Some(&2)), Ok(4..5));
    assert_eq!(model.probability(None), Ok(5..7));
    // a symbol outside the alphabet is not counted
    model.update(Some(&3));
    assert_eq!(model.denominator(), 7);
}

#[test]
fn symbol_inverts_probability() {
    let mut model = FenwickModel::with_symbols(4, 1 << 20);
    for s in [0usize, 2, 2, 3, 3, 3] {
        model.update(Some(&s));
    }
    model.update(None);
    for s in [Some(0usize), Some(1), Some(2), Some(3), None] {
        let range = model.probability(s.as_ref()).unwrap();
        assert!(range.start < range.end);
        for v in range {
            assert_eq!(model.symbol(v), s);
        }
    }
    let total = model.denominator();
    assert_eq!(total, 12);
    assert_eq!(model.symbol(total), None);
    assert_eq!(model.symbol(u64::MAX), None);
}

#[test]
fn counts_stop_at_the_bound() {
    let mut model = FenwickModel::with_symbols(2, 5);
    assert_eq!(model.denominator(), 3);
    model.update(Some(&0));
    model.update(Some(&0));
    assert_eq!(model.denominator(), 5);
    model.update(Some(&0));
    model.update(Some(&1));
    assert_eq!(model.denominator(), 5);
    assert_eq!(model.probability(Some(&0)), Ok(0..3));
    assert_eq!(model.probability(Some(&1)), Ok(3..4));
}

#[test]
fn contexts_keep_their_own_counts() {
    let mut model = FenwickModel::with_symbols(2, 1 << 20);
    let second = model.push_context(4);
    assert_eq!(second, 1);
    assert_eq!(model.num_contexts(), 2);
    // the selected context stays selected
    assert_eq!(model.symbols(), 2);
    model.update(Some(&1));
    model.set_context(second);
    assert_eq!(model.symbols(), 4);
    assert_eq!(model.denominator(), 5);
    assert_eq!(model.probability(Some(&3)), Ok(3..4));
    model.update(Some(&3));
    assert_eq!(model.probability(Some(&3)), Ok(3..5));
    model.set_context(0);
    assert_eq!(model.denominator(), 4);
    assert_eq!(model.probability(Some(&1)), Ok(1..3));
    assert_eq!(model.probability(Some(&3)), Err(ValueError(3)));
}

#[test]
fn clone_keeps_the_counts() {
    let mut model = FenwickModel::with_symbols(3, 1 << 20);
    model.update(Some(&2));
    let copy = model.clone();
    model.update(Some(&2));
    assert_eq!(copy.probability(Some(&2)), Ok(2..4));
    assert_eq!(model.probability(Some(&2)), Ok(2..5));
}

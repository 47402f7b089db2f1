use bustubx::primer::HyperLogLog;

#[test]
fn basic_test_1() {
    let mut obj = HyperLogLog::new(1);
    assert_eq!(obj.get_cardinality(), 0);

    obj.add_elem("Welcome to CMU DB (15-445/645)");
    obj.compute_cardinality();
    let ans = obj.get_cardinality();
    assert_eq!(ans, 2);

    for _ in 0..10 {
        obj.add_elem("Andy");
        obj.add_elem("Connor");
        obj.add_elem("J-How");
        obj.add_elem("Kunle");
        obj.add_elem("Lan");
        obj.add_elem("Prashanth");
        obj.add_elem("William");
        obj.add_elem("Yash");
        obj.add_elem("Yuanxin");

        if obj.get_cardinality() == 6 {
            obj.compute_cardinality();
            let ans = obj.get_cardinality();
            assert_eq!(ans, 6);
        }
    }

    obj.compute_cardinality();
    let ans = obj.get_cardinality();
    assert_eq!(ans, 6);
}

#[test]
fn basic_test_2() {
    let mut obj = HyperLogLog::new(3);
    assert_eq!(obj.get_cardinality(), 0);

    obj.add_elem(0);
    obj.compute_cardinality();
    let ans = obj.get_cardinality();
    assert_eq!(ans, 7);

    for _ in 0..10 {
        obj.add_elem(10);
        obj.add_elem(122);
        obj.add_elem(200);
        obj.add_elem(911);
        obj.add_elem(999);
        obj.add_elem(1402);
        obj.add_elem(15445);
        obj.add_elem(15645);
        obj.add_elem(123456);
        obj.add_elem(312457);

        if obj.get_cardinality() == 10 {
            obj.compute_cardinality();
            let ans = obj.get_cardinality();
            assert_eq!(ans, 10);
        }
    }

    for _ in 0..10 {
        obj.add_elem(-1);
        obj.add_elem(-2);
        obj.add_elem(-3);
        obj.add_elem(-4);
        obj.add_elem(-5);
        obj.add_elem(-6);
        obj.add_elem(-7);
        obj.add_elem(-8);
        obj.add_elem(-9);
        obj.add_elem(-27);

        if obj.get_cardinality() == 10 {
            obj.compute_cardinality();
            let ans = obj.get_cardinality();
            assert_eq!(ans, 10);
        }
    }

    obj.compute_cardinality();
    let ans = obj.get_cardinality();
    assert_eq!(ans, 10);
}

#[test]
fn edge_test_1() {
    let mut obj = HyperLogLog::<i32>::new(-2);
    obj.compute_cardinality();
    assert_eq!(obj.get_cardinality(), 0);
}

#[test]
fn edge_test_2() {
    let mut obj = HyperLogLog::new(0);
    obj.compute_cardinality();
    assert_eq!(obj.get_cardinality(), 0);

    obj.add_elem(1);
    obj.compute_cardinality();
    assert_eq!(obj.get_cardinality(), 1665180);

    obj.add_elem(-1);
    obj.compute_cardinality();
    assert_eq!(obj.get_cardinality(), 1665180);
}

#[test]
fn hash_of_words() {
    assert_eq!(bustubx::primer::hyperloglog::hash_word(0), 8796093024256);
    assert_eq!(bustubx::primer::hyperloglog::hash_word(1), 8830452762632);
    assert_eq!(bustubx::primer::hyperloglog::hash_word(u64::MAX), 18302760723948795903);
    assert_eq!(bustubx::primer::hyperloglog::hash_word(200), 4471945099923683303);
}

#[test]
fn hash_of_texts() {
    assert_eq!(bustubx::primer::hyperloglog::hash_text(""), 32);
    assert_eq!(bustubx::primer::hyperloglog::hash_text("Andy"), 237412128);
    assert_eq!(bustubx::primer::hyperloglog::hash_text("é"), 4398046414143);
}

#[test]
fn keys_hash_by_their_bytes() {
    let ints = HyperLogLog::<i32>::new(0);
    assert_eq!(ints.calculate_hash(&1), 8830452762632);
    assert_eq!(ints.calculate_hash(&-1), 18302760723948795903);
    let longs = HyperLogLog::<i64>::new(0);
    assert_eq!(longs.calculate_hash(&200), 4471945099923683303);
    let texts = HyperLogLog::<&str>::new(0);
    assert_eq!(texts.calculate_hash(&"Andy"), 237412128);
    let strings = HyperLogLog::<String>::new(0);
    assert_eq!(strings.calculate_hash(&"Andy".to_string()), 237412128);
}

#[test]
fn binary_of_a_hash_is_the_hash() {
    let hll = HyperLogLog::<i32>::new(2);
    assert_eq!(hll.compute_binary(0), 0);
    assert_eq!(hll.compute_binary(0xDEAD_BEEF), 0xDEAD_BEEF);
}

#[test]
fn leftmost_one_is_counted_from_the_left_starting_at_zero() {
    let hll = HyperLogLog::<i32>::new(2);
    assert_eq!(hll.position_of_leftmost_one(u64::MAX), 0);
    assert_eq!(hll.position_of_leftmost_one(1 << 63), 0);
    assert_eq!(hll.position_of_leftmost_one(1 << 62), 1);
    assert_eq!(hll.position_of_leftmost_one(1), 63);
    assert_eq!(hll.position_of_leftmost_one(0), 64);
    assert_eq!(hll.position_of_leftmost_one(8830452762632), 20);
    for bset in [0u64, 1, 2, 3, 255, 1 << 40, u64::MAX >> 7, u64::MAX] {
        assert_eq!(hll.position_of_leftmost_one(bset), bset.leading_zeros() as u64);
    }
}

#[test]
fn estimate_of_untouched_registers() {
    // 0.79402 * m * m / m, rounded down.
    let mut one = HyperLogLog::<i32>::new(0);
    one.compute_cardinality();
    assert_eq!(one.get_cardinality(), 0);
    let mut two = HyperLogLog::<i32>::new(1);
    two.compute_cardinality();
    assert_eq!(two.get_cardinality(), 1);
    let mut eight = HyperLogLog::<i32>::new(3);
    eight.compute_cardinality();
    assert_eq!(eight.get_cardinality(), 6);
    let mut many = HyperLogLog::<i32>::new(10);
    many.compute_cardinality();
    assert_eq!(many.get_cardinality(), 813);
}

#[test]
fn estimate_after_one_key() {
    // The hash of 200 falls into register 0 of four, with its first set
    // bit at position 1: 0.79402 * 16 / (1/2 + 3) = 3.6...
    let mut hll = HyperLogLog::<i32>::new(2);
    hll.add_elem(200);
    assert_eq!(hll.get_cardinality(), 0);
    hll.compute_cardinality();
    assert_eq!(hll.get_cardinality(), 3);
}

#[test]
fn add_hash_counts_a_hash_in() {
    let mut hll = HyperLogLog::<i32>::new(0);
    hll.add_hash(1);
    hll.compute_cardinality();
    // One register at 64: 0.79402 * 2^64, rounded down.
    assert_eq!(hll.get_cardinality(), 14647083729406858174);
    hll.add_hash(0);
    hll.compute_cardinality();
    // One register at 65: past what fits, so capped.
    assert_eq!(hll.get_cardinality(), usize::MAX);
}

#[test]
fn counting_a_key_twice_changes_nothing() {
    let mut hll = HyperLogLog::new(4);
    hll.add_elem("Andy");
    hll.compute_cardinality();
    let once = hll.get_cardinality();
    hll.add_elem("Andy");
    hll.compute_cardinality();
    assert_eq!(hll.get_cardinality(), once);
}

#[test]
fn estimator_without_registers_counts_nothing() {
    let mut hll = HyperLogLog::new(-1);
    hll.add_elem(5);
    hll.add_elem(6);
    hll.compute_cardinality();
    assert_eq!(hll.get_cardinality(), 0);
}

#[test]
fn buckets_hold_the_largest_ranks() {
    let mut hll = HyperLogLog::<i32>::new(2);
    assert_eq!(hll.buckets(), &vec![0, 0, 0, 0]);
    hll.add_elem(200);
    assert_eq!(hll.buckets(), &vec![1, 0, 0, 0]);
    hll.add_hash(u64::MAX);
    assert_eq!(hll.buckets(), &vec![1, 0, 0, 1]);
    hll.add_hash(0xC000_0000_0000_0001);
    assert_eq!(hll.buckets(), &vec![1, 0, 0, 62]);
    hll.add_hash(0xC000_0000_0000_0000);
    assert_eq!(hll.buckets(), &vec![1, 0, 0, 65]);
    let none = HyperLogLog::<i32>::new(-3);
    assert!(none.buckets().is_empty());
}

#[test]
fn integer_keys_hash_as_64_bit_words() {
    assert_eq!(HyperLogLog::<u8>::new(0).calculate_hash(&200), 4471945099923683303);
    assert_eq!(HyperLogLog::<u16>::new(0).calculate_hash(&200), 4471945099923683303);
    assert_eq!(HyperLogLog::<u32>::new(0).calculate_hash(&200), 4471945099923683303);
    assert_eq!(HyperLogLog::<u64>::new(0).calculate_hash(&200), 4471945099923683303);
    assert_eq!(HyperLogLog::<usize>::new(0).calculate_hash(&200), 4471945099923683303);
    assert_eq!(HyperLogLog::<i16>::new(0).calculate_hash(&200), 4471945099923683303);
    assert_eq!(HyperLogLog::<isize>::new(0).calculate_hash(&200), 4471945099923683303);
    assert_eq!(HyperLogLog::<i8>::new(0).calculate_hash(&-1), 18302760723948795903);
    assert_eq!(HyperLogLog::<i16>::new(0).calculate_hash(&-1), 18302760723948795903);
    assert_eq!(HyperLogLog::<isize>::new(0).calculate_hash(&-1), 18302760723948795903);
    assert_eq!(HyperLogLog::<u64>::new(0).calculate_hash(&u64::MAX), 18302760723948795903);
}

#[test]
fn wide_integer_keys_hash_by_sixteen_bytes() {
    assert_eq!(bustubx::primer::hyperloglog::hash_wide(1), 4512395720392704);
    assert_eq!(HyperLogLog::<u128>::new(0).calculate_hash(&1), 4512395720392704);
    assert_eq!(HyperLogLog::<u128>::new(0).calculate_hash(&((1 << 64) + 5)), 4512430080139272);
    assert_eq!(HyperLogLog::<i128>::new(0).calculate_hash(&1), 4512395720392704);
    assert_eq!(HyperLogLog::<i128>::new(0).calculate_hash(&-1), 1035831342752851169);
    assert_eq!(HyperLogLog::<i128>::new(0).calculate_hash(&-2), 1035840138845873377);
}

#[test]
fn estimate_is_the_exact_quotient() {
    // One register at 55: 0.79402 * 2^55 is 28607585408997769.8...
    let mut hll = HyperLogLog::<i32>::new(0);
    hll.add_hash(1 << 9);
    assert_eq!(hll.buckets(), &vec![55]);
    hll.compute_cardinality();
    assert_eq!(hll.get_cardinality(), 28607585408997769);
}

#[test]
fn estimator_with_many_registers() {
    let mut hll = HyperLogLog::<u64>::new(26);
    assert_eq!(hll.buckets().len(), 1 << 26);
    hll.compute_cardinality();
    // 0.79402 * 2^26, rounded down.
    assert_eq!(hll.get_cardinality(), 53285780);
    hll.add_hash(u64::MAX);
    assert_eq!(hll.buckets()[(1 << 26) - 1], 1);
    hll.add_hash(0);
    assert_eq!(hll.buckets()[0], 65);
    hll.compute_cardinality();
    assert_eq!(hll.get_cardinality(), 53285781);
}

use bloom_filter::filter::expected_items;
use bloom_filter::filter::BloomFilter;
use bloom_filter::filter::ConstructionError;
use bloom_filter::number::Number;
use rayon::iter::IntoParallelRefIterator;
use rayon::iter::ParallelIterator;

fn number(value: f64) -> Number {
    Number { bits: value.to_bits() }
}

fn construct(capacity: f64, rate: f64) -> Result<BloomFilter, ConstructionError> {
    let bit_count = match expected_items(number(capacity), number(rate)) {
        Ok(items) => fastbloom::optimal_size(items, rate),
        Err(_) => 64,
    };
    BloomFilter::new(number(capacity), number(rate), bit_count)
}

fn filter(capacity: f64, rate: f64) -> BloomFilter {
    match construct(capacity, rate) {
        Ok(filter) => filter,
        Err(error) => panic!("construction failed: {error:?}"),
    }
}

fn item(index: usize) -> String {
    format!("item-{index}")
}

#[test]
fn example_scenario() {
    let mut filter = filter(1000.0, 0.01);
    filter.add(String::from("alpha"));
    assert!(filter.has(String::from("alpha")));
    let first = filter.has(String::from("never-added-item-xyz"));
    for _ in 0..100 {
        assert_eq!(filter.has(String::from("never-added-item-xyz")), first);
    }
    assert!(!first);
}

#[test]
fn zero_capacity_is_invalid_whatever_the_rate() {
    for rate in [0.01, 0.5, 0.0, 1.0, -1.0, 2.0, f64::NAN, f64::INFINITY] {
        assert_eq!(construct(0.0, rate).err(), Some(ConstructionError::InvalidCapacity));
        assert_eq!(construct(-0.0, rate).err(), Some(ConstructionError::InvalidCapacity));
    }
}

#[test]
fn capacity_not_above_zero_is_invalid() {
    for capacity in [-1.0, -1000.0, f64::NEG_INFINITY, f64::NAN, -f64::MIN_POSITIVE] {
        assert_eq!(construct(capacity, 0.01).err(), Some(ConstructionError::InvalidCapacity));
    }
}

#[test]
fn rate_of_zero_or_one_is_invalid() {
    for capacity in [0.5, 1.0, 1000.0, 1e6] {
        assert_eq!(
            construct(capacity, 0.0).err(),
            Some(ConstructionError::InvalidFalsePositiveRate)
        );
        assert_eq!(
            construct(capacity, 1.0).err(),
            Some(ConstructionError::InvalidFalsePositiveRate)
        );
    }
}

#[test]
fn rate_outside_the_open_interval_is_invalid() {
    for rate in [-0.0, -0.5, 1.0000000000000002, 2.0, f64::INFINITY, f64::NEG_INFINITY, f64::NAN] {
        assert_eq!(
            construct(1000.0, rate).err(),
            Some(ConstructionError::InvalidFalsePositiveRate)
        );
    }
}

#[test]
fn construction_succeeds_exactly_on_valid_parameters() {
    let values = [
        f64::NEG_INFINITY,
        -2.0,
        -1.0,
        -f64::MIN_POSITIVE,
        -0.0,
        0.0,
        f64::from_bits(1),
        f64::MIN_POSITIVE,
        0.25,
        0.9999999999999999,
        1.0,
        1.0000000000000002,
        2.0,
        1000.0,
        1e300,
        f64::INFINITY,
        f64::NAN,
        -f64::NAN,
    ];
    for capacity in values {
        for rate in values {
            let expected = if !(capacity > 0.0) {
                Some(ConstructionError::InvalidCapacity)
            } else if !(rate > 0.0 && rate < 1.0) {
                Some(ConstructionError::InvalidFalsePositiveRate)
            } else {
                None
            };
            let built = BloomFilter::new(number(capacity), number(rate), 64);
            assert_eq!(built.err(), expected, "{capacity:e} {rate:e}");
        }
    }
}

#[test]
fn valid_parameters_construct_an_empty_filter() {
    for capacity in [0.5, 1.0, 10.0, 1000.0, 12345.678] {
        for rate in [1e-9, 0.001, 0.01, 0.5, 0.9999999999999999] {
            let filter = filter(capacity, rate);
            assert!(filter.bit_count() > 0);
            assert!(filter.hash_count() >= 1);
            assert!(!filter.has(String::from("anything")));
        }
    }
}

#[test]
fn expected_items_rounds_capacity_toward_zero() {
    assert_eq!(expected_items(number(1000.0), number(0.01)), Ok(1000));
    assert_eq!(expected_items(number(1000.9), number(0.01)), Ok(1000));
    assert_eq!(expected_items(number(1.0), number(0.5)), Ok(1));
    assert_eq!(expected_items(number(2.5), number(0.5)), Ok(2));
}

#[test]
fn expected_items_counts_a_fraction_of_an_item_as_one() {
    assert_eq!(expected_items(number(0.5), number(0.5)), Ok(1));
    assert_eq!(expected_items(number(f64::from_bits(1)), number(0.5)), Ok(1));
}

#[test]
fn expected_items_saturates() {
    assert_eq!(expected_items(number(1e300), number(0.5)), Ok(usize::MAX));
    assert_eq!(expected_items(number(f64::INFINITY), number(0.5)), Ok(usize::MAX));
}

#[test]
fn expected_items_reports_each_error() {
    assert_eq!(
        expected_items(number(0.0), number(0.5)),
        Err(ConstructionError::InvalidCapacity)
    );
    assert_eq!(
        expected_items(number(0.0), number(7.0)),
        Err(ConstructionError::InvalidCapacity)
    );
    assert_eq!(
        expected_items(number(10.0), number(7.0)),
        Err(ConstructionError::InvalidFalsePositiveRate)
    );
}

#[test]
fn bit_count_is_rounded_up_to_whole_words() {
    for (asked, given) in [(1usize, 64usize), (63, 64), (64, 64), (65, 128), (1000, 1024), (9592, 9600)] {
        let filter = match BloomFilter::new(number(100.0), number(0.01), asked) {
            Ok(filter) => filter,
            Err(error) => panic!("construction failed: {error:?}"),
        };
        assert_eq!(filter.bit_count(), given);
    }
}

#[test]
fn sizing_for_a_thousand_items_at_one_percent() {
    let filter = filter(1000.0, 0.01);
    assert_eq!(filter.bit_count(), 9600);
    assert_eq!(filter.hash_count(), 7);
}

#[test]
fn hash_count_is_the_optimal_one() {
    for (bits, capacity) in [(64usize, 1000.0f64), (1024, 100.0), (9600, 1000.0), (1 << 20, 3.0)] {
        let filter = match BloomFilter::new(number(capacity), number(0.01), bits) {
            Ok(filter) => filter,
            Err(error) => panic!("construction failed: {error:?}"),
        };
        assert_eq!(
            filter.hash_count(),
            fastbloom::optimal_hashes(filter.bit_count(), capacity as usize)
        );
    }
}

#[test]
fn hash_count_is_at_least_one() {
    let filter = match BloomFilter::new(number(1e9), number(0.5), 64) {
        Ok(filter) => filter,
        Err(error) => panic!("construction failed: {error:?}"),
    };
    assert_eq!(filter.hash_count(), 1);
}

#[test]
fn a_new_filter_has_nothing() {
    let filter = filter(1000.0, 0.01);
    for index in 0..1000 {
        assert!(!filter.has(item(index)));
    }
}

#[test]
fn added_items_are_always_found() {
    let mut filter = filter(500.0, 0.01);
    for index in 0..2000 {
        filter.add(item(index));
        assert!(filter.has(item(index)));
    }
    for index in 0..2000 {
        assert!(filter.has(item(index)));
    }
}

#[test]
fn found_items_stay_found() {
    let mut filter = filter(200.0, 0.05);
    let probes: Vec<String> = (0..500).map(|index| format!("probe-{index}")).collect();
    let mut found = vec![false; probes.len()];
    for index in 0..1000 {
        filter.add(item(index));
        for (position, probe) in probes.iter().enumerate() {
            let now = filter.has(probe.clone());
            assert!(now || !found[position]);
            found[position] = now;
        }
    }
}

#[test]
fn checks_are_repeatable() {
    let mut filter = filter(100.0, 0.1);
    for index in 0..300 {
        filter.add(item(index));
    }
    for index in 0..500 {
        let probe = format!("probe-{index}");
        let first = filter.has(probe.clone());
        for _ in 0..10 {
            assert_eq!(filter.has(probe.clone()), first);
        }
    }
}

#[test]
fn adding_twice_changes_nothing() {
    let mut filter = filter(100.0, 0.1);
    for index in 0..100 {
        filter.add(item(index));
    }
    let probes: Vec<String> = (0..2000).map(|index| format!("probe-{index}")).collect();
    let before: Vec<bool> = probes.iter().map(|probe| filter.has(probe.clone())).collect();
    for index in 0..100 {
        filter.add(item(index));
    }
    let after: Vec<bool> = probes.iter().map(|probe| filter.has(probe.clone())).collect();
    assert_eq!(before, after);
}

#[test]
fn bulk_add_inserts_every_item() {
    let mut filter = filter(1000.0, 0.01);
    let items: Vec<String> = (0..1000).map(item).collect();
    filter.bulk_add(items.clone());
    for one in items {
        assert!(filter.has(one));
    }
}

#[test]
fn bulk_add_of_nothing_changes_nothing() {
    let mut filter = filter(1000.0, 0.01);
    filter.bulk_add(Vec::new());
    for index in 0..1000 {
        assert!(!filter.has(item(index)));
    }
}

#[test]
fn bulk_add_sets_what_single_adds_set() {
    let items: Vec<String> = (0..300).map(item).collect();
    let probes: Vec<String> = (0..5000).map(|index| format!("probe-{index}")).collect();
    let mut filter = filter(100.0, 0.1);
    filter.bulk_add(items.clone());
    let after_bulk: Vec<bool> = probes.iter().map(|probe| filter.has(probe.clone())).collect();
    for one in items.iter().rev() {
        filter.add(one.clone());
    }
    let after_singles: Vec<bool> = probes.iter().map(|probe| filter.has(probe.clone())).collect();
    assert_eq!(after_bulk, after_singles);
    let mut reversed = items;
    reversed.reverse();
    filter.bulk_add(reversed);
    let after_second_bulk: Vec<bool> = probes.iter().map(|probe| filter.has(probe.clone())).collect();
    assert_eq!(after_bulk, after_second_bulk);
}

#[test]
fn false_positives_stay_near_the_target_rate() {
    let mut filter = filter(1000.0, 0.01);
    filter.bulk_add((0..1000).map(item).collect());
    let mut positives = 0usize;
    let trials = 20000usize;
    for index in 0..trials {
        if filter.has(format!("absent-{index}")) {
            positives += 1;
        }
    }
    let observed = positives as f64 / trials as f64;
    assert!(observed < 0.03, "observed rate {observed}");
}

#[test]
fn empty_and_unusual_strings_are_items_too() {
    let mut filter = filter(10.0, 0.001);
    for text in ["", " ", "\u{0}", "🦀", "a\nb", "alpha", "Alpha"] {
        filter.add(String::from(text));
        assert!(filter.has(String::from(text)));
    }
}

#[test]
fn checks_from_many_workers_find_every_added_item() {
    let mut filter = filter(1000.0, 0.01);
    let items: Vec<String> = (0..1000).map(item).collect();
    for one in items.iter() {
        filter.add(one.clone());
    }
    assert!(items.par_iter().all(|one| filter.has(one.clone())));
}

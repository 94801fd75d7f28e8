use laminax_kpl::ai_ml_functions::{shuffled_order, split_in_order, train_test_split};
use laminax_kpl::environment::Value;

fn numeral(bits: u64) -> String {
    format!("{}", f64::from_bits(bits))
}

fn numbers(values: &[f64]) -> Vec<Value> {
    values.iter().map(|v| Value::Number(v.to_bits())).collect()
}

fn parts_of(value: &Value) -> Vec<Vec<String>> {
    let Value::List(parts) = value else { panic!("no list: {:?}", value) };
    parts
        .iter()
        .map(|part| {
            let Value::List(items) = part else { panic!("no list: {:?}", part) };
            items.iter().map(|item| item.to_string(&numeral)).collect()
        })
        .collect()
}

#[test]
fn shuffled_order_names_each_index_once() {
    for count in [0_usize, 1, 2, 7, 100] {
        for seed in [None, Some(0), Some(42)] {
            let mut order = shuffled_order(count, seed);
            assert_eq!(order.len(), count);
            order.sort();
            assert_eq!(order, (0..count).collect::<Vec<_>>());
        }
    }
}

#[test]
fn shuffled_order_is_not_the_order_it_began_with() {
    let turn: Vec<usize> = (0..50).collect();
    assert_ne!(shuffled_order(50, Some(1)), turn);
    assert_ne!(shuffled_order(50, None), turn);
    assert_ne!(shuffled_order(50, Some(1)), shuffled_order(50, Some(2)));
}

#[test]
fn same_seed_gives_the_same_order() {
    assert_eq!(shuffled_order(30, Some(7)), shuffled_order(30, Some(7)));
}

#[test]
fn split_in_order_takes_items_as_the_order_names_them() {
    let data = numbers(&[10.0, 11.0, 12.0, 13.0]);
    let labels = numbers(&[0.0, 1.0, 2.0, 3.0]);
    let parts = split_in_order(&data, &labels, &vec![2, 0, 3, 1], 3);
    assert_eq!(
        parts_of(&parts),
        vec![vec!["12", "10", "13"], vec!["11"], vec!["2", "0", "3"], vec!["1"]]
    );
    let none = split_in_order(&data, &labels, &vec![0, 1, 2, 3], 0);
    assert_eq!(parts_of(&none)[0].len(), 0);
    assert_eq!(parts_of(&none)[1], vec!["10", "11", "12", "13"]);
    let all = split_in_order(&data, &labels, &vec![3, 2, 1, 0], 4);
    assert_eq!(parts_of(&all)[2], vec!["3", "2", "1", "0"]);
    assert_eq!(parts_of(&all)[3].len(), 0);
}

#[test]
fn train_test_split_keeps_data_and_labels_together() {
    let data = numbers(&[100.0, 101.0, 102.0, 103.0, 104.0, 105.0, 106.0, 107.0, 108.0, 109.0]);
    let labels = numbers(&[0.0, 1.0, 2.0, 3.0, 4.0, 5.0, 6.0, 7.0, 8.0, 9.0]);
    for seed in [None, Some(3), Some(99)] {
        let parts = parts_of(&train_test_split(&data, &labels, 8, seed));
        assert_eq!(parts.len(), 4);
        assert_eq!((parts[0].len(), parts[1].len(), parts[2].len(), parts[3].len()), (8, 2, 8, 2));
        let mut seen: Vec<u32> = Vec::new();
        for (x, y) in parts[0].iter().zip(&parts[2]).chain(parts[1].iter().zip(&parts[3])) {
            let (x, y): (u32, u32) = (x.parse().unwrap(), y.parse().unwrap());
            assert_eq!(x, y + 100);
            seen.push(y);
        }
        seen.sort();
        assert_eq!(seen, (0..10).collect::<Vec<_>>());
    }
    let same = |seed| parts_of(&train_test_split(&data, &labels, 5, Some(seed)));
    assert_eq!(same(11), same(11));
    let empty = parts_of(&train_test_split(&vec![], &vec![], 0, None));
    assert_eq!(empty, vec![Vec::<String>::new(); 4]);
}

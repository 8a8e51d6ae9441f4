use relay::partition::{partition, partition_by, Partition, Partitions};
use relay::permutation::apply_permutation;
use relay::view::BucketsView;
use std::sync::Arc;

#[derive(Debug, Clone, PartialEq)]
struct Bucket {
    timestamp: u64,
    width: u64,
    name: String,
    ty: char,
    value: f64,
}

fn counter(name: &str, value: f64) -> Bucket {
    Bucket {
        timestamp: 5000,
        width: 0,
        name: format!("c:custom/{name}@none"),
        ty: 'c',
        value,
    }
}

fn buckets() -> Vec<Bucket> {
    vec![
        counter("a", 1.0),
        counter("b", 2.0),
        counter("c", 3.0),
        counter("b", 4.0),
        counter("c", 5.0),
        counter("b", 6.0),
    ]
}

fn collect<T: Clone>(view: &BucketsView<T>) -> Vec<T> {
    let mut items = Vec::new();
    let mut i = 0;
    while let Some(item) = view.get(i) {
        items.push(item.clone());
        i += 1;
    }
    assert_eq!(items.len(), view.len());
    items
}

#[test]
fn test_partition_buckets() {
    let buckets: Vec<_> = buckets();

    let mut partitions = partition(buckets, |bucket| bucket.name.as_bytes()[9] as char);

    let (partition, view) = partitions.next().unwrap();
    assert_eq!(partition, 'a');
    assert_eq!(collect(&view), vec![counter("a", 1.0)]);

    let (partition, view) = partitions.next().unwrap();
    assert_eq!(partition, 'b');
    assert_eq!(
        collect(&view),
        vec![counter("b", 2.0), counter("b", 4.0), counter("b", 6.0)]
    );

    let (partition, view) = partitions.next().unwrap();
    assert_eq!(partition, 'c');
    assert_eq!(collect(&view), vec![counter("c", 3.0), counter("c", 5.0)]);

    assert!(partitions.next().is_none());
}

#[test]
fn test_parition_sort_order() {
    let mut data: Vec<i32> = (0..100).rev().collect();

    let mut partitions = partition_by(&mut data, |v| *v);
    let mut i = 0;
    while let Some(partition) = partitions.next() {
        assert_eq!(partition.start, i);
        assert_eq!(partition.end, i + 1);
        assert_eq!(partition.partition, i as i32);
        assert_eq!(&data[partition.start..partition.end], &[i as i32]);
        i += 1;
    }
    assert_eq!(i, 100);
}

#[test]
fn test_parition_multiple() {
    let mut data = vec!["a", "b", "c", "b", "a", "b"];

    let mut partitions = partition_by(&mut data, |v| v.as_bytes()[0] - b'a');

    let partition = partitions.next().unwrap();
    assert_eq!(
        partition,
        Partition {
            start: 0,
            end: 2,
            partition: 0,
        }
    );
    assert_eq!(&data[partition.start..partition.end], &["a", "a"]);

    let partition = partitions.next().unwrap();
    assert_eq!(
        partition,
        Partition {
            start: 2,
            end: 5,
            partition: 1,
        }
    );
    assert_eq!(&data[partition.start..partition.end], &["b", "b", "b"]);

    let partition = partitions.next().unwrap();
    assert_eq!(
        partition,
        Partition {
            start: 5,
            end: 6,
            partition: 2,
        }
    );
    assert_eq!(&data[partition.start..partition.end], &["c"]);

    assert_eq!(partitions.next(), None);
}

#[test]
fn test_parition_empty() {
    let mut data = Vec::<i32>::new();

    let mut partitions = partition_by(&mut data, |v| *v);
    assert_eq!(partitions.next(), None);
}

#[test]
fn partition_strings_by_first_character() {
    let input: Vec<String> = ["a", "b", "c", "b", "a", "b"]
        .iter()
        .map(|s| s.to_string())
        .collect();

    let mut partitions = partition(input, |s| s.chars().next().unwrap());

    let (key, view) = partitions.next().unwrap();
    assert_eq!(key, 'a');
    assert_eq!(collect(&view), vec!["a".to_string(), "a".to_string()]);

    let (key, view) = partitions.next().unwrap();
    assert_eq!(key, 'b');
    assert_eq!(
        collect(&view),
        vec!["b".to_string(), "b".to_string(), "b".to_string()]
    );

    let (key, view) = partitions.next().unwrap();
    assert_eq!(key, 'c');
    assert_eq!(collect(&view), vec!["c".to_string()]);

    assert!(partitions.next().is_none());
    assert!(partitions.next().is_none());
}

#[test]
fn partition_descending_integers() {
    let input: Vec<u32> = (0..100).rev().collect();

    let mut partitions = partition(input, |v| *v);
    for expected in 0..100u32 {
        let (key, view) = partitions.next().unwrap();
        assert_eq!(key, expected);
        assert_eq!(view.len(), 1);
        assert!(!view.is_empty());
        assert_eq!(view.get(0), Some(&expected));
        assert_eq!(view.get(1), None);
    }
    assert!(partitions.next().is_none());
}

#[test]
fn partition_of_nothing_is_empty() {
    let mut partitions = partition(Vec::<u64>::new(), |v| *v);
    assert!(partitions.next().is_none());
    assert!(partitions.next().is_none());
}

#[test]
fn partition_of_one_bucket() {
    let mut partitions = partition(vec![7u8], |v| *v);
    let (key, view) = partitions.next().unwrap();
    assert_eq!(key, 7);
    assert_eq!(collect(&view), vec![7]);
    assert!(partitions.next().is_none());
}

#[test]
fn partition_with_a_single_key() {
    let mut data = vec![(1u8, 'x'), (1, 'y'), (1, 'z')];
    let mut partitions = partition_by(&mut data, |v| v.0);
    assert_eq!(
        partitions.next(),
        Some(Partition {
            start: 0,
            end: 3,
            partition: 1,
        })
    );
    assert_eq!(partitions.next(), None);
    assert_eq!(data, vec![(1, 'x'), (1, 'y'), (1, 'z')]);
}

#[test]
fn partition_keeps_every_bucket_once() {
    let input = vec![5u16, 3, 5, 1, 3, 5, 9, 1];
    let mut sorted_input = input.clone();
    sorted_input.sort();

    let mut partitions = partition(input, |v| *v % 4);
    let mut seen = Vec::new();
    let mut keys = Vec::new();
    while let Some((key, view)) = partitions.next() {
        for item in collect(&view) {
            assert_eq!(item % 4, key);
            seen.push(item);
        }
        keys.push(key);
    }
    assert_eq!(keys, vec![1, 3]);
    seen.sort();
    assert_eq!(seen, sorted_input);
}

#[test]
fn partition_keeps_the_order_of_equal_keys() {
    let mut data = vec![(2u8, 'a'), (1, 'b'), (2, 'c'), (1, 'd'), (0, 'e'), (2, 'f')];
    let mut partitions = partition_by(&mut data, |v| v.0);
    assert_eq!(
        data,
        vec![(0, 'e'), (1, 'b'), (1, 'd'), (2, 'a'), (2, 'c'), (2, 'f')]
    );
    assert_eq!(
        partitions.next(),
        Some(Partition {
            start: 0,
            end: 1,
            partition: 0,
        })
    );
    assert_eq!(
        partitions.next(),
        Some(Partition {
            start: 1,
            end: 3,
            partition: 1,
        })
    );
    assert_eq!(
        partitions.next(),
        Some(Partition {
            start: 3,
            end: 6,
            partition: 2,
        })
    );
    assert_eq!(partitions.next(), None);
}

#[test]
fn partitions_are_the_runs_of_the_keys() {
    let mut partitions = Partitions::new(vec![(1u8, 0), (1, 1), (2, 2), (1, 3), (1, 4)]);
    assert_eq!(
        partitions.next(),
        Some(Partition {
            start: 0,
            end: 2,
            partition: 1,
        })
    );
    assert_eq!(
        partitions.next(),
        Some(Partition {
            start: 2,
            end: 3,
            partition: 2,
        })
    );
    assert_eq!(
        partitions.next(),
        Some(Partition {
            start: 3,
            end: 5,
            partition: 1,
        })
    );
    assert_eq!(partitions.next(), None);
    assert_eq!(partitions.next(), None);
}

#[test]
fn apply_permutation_moves_elements_in_place() {
    let mut data = vec!['a', 'b', 'c', 'd', 'e'];
    let mut indices = vec![(0u8, 3), (1, 0), (2, 4), (3, 1), (4, 2)];
    apply_permutation(&mut data, &mut indices);
    assert_eq!(data, vec!['d', 'a', 'e', 'b', 'c']);
    let keys: Vec<u8> = indices.iter().map(|pair| pair.0).collect();
    assert_eq!(keys, vec![0, 1, 2, 3, 4]);
}

#[test]
fn apply_permutation_follows_a_single_cycle() {
    let mut data = vec![10, 20, 30, 40];
    let mut indices = vec![((), 1), ((), 2), ((), 3), ((), 0)];
    apply_permutation(&mut data, &mut indices);
    assert_eq!(data, vec![20, 30, 40, 10]);
}

#[test]
fn apply_permutation_leaves_the_identity_alone() {
    let mut data = vec![1, 2, 3];
    let mut indices = vec![('x', 0), ('y', 1), ('z', 2)];
    apply_permutation(&mut data, &mut indices);
    assert_eq!(data, vec![1, 2, 3]);

    let mut nothing: Vec<u8> = Vec::new();
    let mut no_indices: Vec<(u8, usize)> = Vec::new();
    apply_permutation(&mut nothing, &mut no_indices);
    assert!(nothing.is_empty());
}

#[test]
fn view_covers_the_whole_buffer() {
    let view = BucketsView::new(Arc::new(vec![1, 2, 3, 4, 5]));
    assert_eq!(view.len(), 5);
    assert!(!view.is_empty());
    assert_eq!(collect(&view), vec![1, 2, 3, 4, 5]);
    assert_eq!(view.get(5), None);

    let empty = BucketsView::new(Arc::new(Vec::<u8>::new()));
    assert_eq!(empty.len(), 0);
    assert!(empty.is_empty());
    assert_eq!(empty.get(0), None);
}

#[test]
fn view_select_uses_positions_of_the_buffer() {
    let view = BucketsView::new(Arc::new(vec![10, 11, 12, 13, 14, 15]));
    let middle = view.select(1, 5);
    assert_eq!(collect(&middle), vec![11, 12, 13, 14]);

    let inner = middle.clone().select(2, 4);
    assert_eq!(collect(&inner), vec![12, 13]);
    assert_eq!(inner.get(0), Some(&12));

    let same = middle.clone().select(1, 5);
    assert_eq!(collect(&same), collect(&middle));

    let none = middle.select(3, 3);
    assert!(none.is_empty());
    assert_eq!(none.get(0), None);
}

#[test]
fn view_clone_shares_the_buffer() {
    let buffer = Arc::new(vec!["x".to_string(), "y".to_string()]);
    let view = BucketsView::new(Arc::clone(&buffer));
    let second = view.clone();
    assert_eq!(Arc::strong_count(&buffer), 3);
    assert_eq!(collect(&second), collect(&view));
    drop(view);
    assert_eq!(collect(&second), vec!["x".to_string(), "y".to_string()]);
    drop(second);
    assert_eq!(Arc::strong_count(&buffer), 1);
}

#[test]
fn views_outlive_the_iterator() {
    let mut partitions = partition(vec![3u8, 1, 3, 2], |v| *v);
    let (first_key, first) = partitions.next().unwrap();
    let (second_key, second) = partitions.next().unwrap();
    drop(partitions);
    assert_eq!((first_key, collect(&first)), (1, vec![1]));
    assert_eq!((second_key, collect(&second)), (2, vec![2]));
}

#[test]
fn partition_by_groups_like_a_stable_sort() {
    let mut state: u64 = 0x2545_f491_4f6c_dd1d;
    for len in 0..60usize {
        let mut data: Vec<(u8, usize)> = Vec::with_capacity(len);
        for position in 0..len {
            state ^= state << 13;
            state ^= state >> 7;
            state ^= state << 17;
            data.push(((state % 7) as u8, position));
        }
        let mut expected = data.clone();
        expected.sort_by_key(|item| item.0);

        let mut partitions = partition_by(&mut data, |item| item.0);
        assert_eq!(data, expected);

        let mut start = 0;
        let mut last_key = None;
        while let Some(partition) = partitions.next() {
            assert_eq!(partition.start, start);
            assert!(partition.start < partition.end);
            assert!(last_key < Some(partition.partition));
            for item in &data[partition.start..partition.end] {
                assert_eq!(item.0, partition.partition);
            }
            last_key = Some(partition.partition);
            start = partition.end;
        }
        assert_eq!(start, len);
    }
}

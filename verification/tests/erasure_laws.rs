use omnipaxos_ec::erasure::log_entry::{DefaultLogEntry, ECEntry, OperationType};
use omnipaxos_ec::erasure::{ECError, ECService, EntryFragment};

fn fragment(idx: usize, data: &[u8]) -> EntryFragment {
    EntryFragment::new(idx, data.to_vec())
}

#[test]
fn data_fragments_are_the_framed_entry() {
    let ec = ECService::new(2, 1).unwrap();
    let fragments = ec.encode(&vec![7, 8, 9]).unwrap();
    assert_eq!(fragments.len(), 3);
    assert_eq!(fragments[0], fragment(0, &[0, 0, 0, 0, 0, 0]));
    assert_eq!(fragments[1], fragment(1, &[0, 3, 7, 8, 9, 0]));
    assert_eq!(fragments[2].idx, 2);
    assert_eq!(fragments[2].data.len(), 6);
    assert_ne!(fragments[2].data, vec![0; 6]);
}

#[test]
fn single_data_shard_is_repeated_in_parity() {
    let ec = ECService::new(1, 1).unwrap();
    let fragments = ec.encode(&vec![5]).unwrap();
    assert_eq!(fragments[0].data, vec![0, 0, 0, 0, 0, 0, 0, 1, 5]);
    assert_eq!(ec.decode(&vec![fragments[1].clone()]).unwrap(), vec![5]);
}

#[test]
fn every_choice_of_enough_fragments_decodes() {
    let ec = ECService::new(3, 3).unwrap();
    let value: Vec<u8> = (0..40).collect();
    let fragments = ec.encode(&value).unwrap();
    for mask in 0u32..64 {
        let chosen: Vec<EntryFragment> = fragments
            .iter()
            .filter(|f| mask & (1 << f.idx) != 0)
            .cloned()
            .collect();
        let result = ec.decode(&chosen);
        if chosen.len() >= 3 {
            assert_eq!(result, Ok(value.clone()));
        } else {
            assert_eq!(result, Err(ECError::TooFewShardsPresent));
        }
    }
}

#[test]
fn fragments_decode_in_any_order() {
    let ec = ECService::new(3, 2).unwrap();
    let value = vec![1, 2, 3, 4, 5];
    let mut fragments = ec.encode(&value).unwrap();
    fragments.reverse();
    fragments.truncate(3);
    assert_eq!(ec.decode(&fragments), Ok(value));
}

#[test]
fn repeated_fragment_counts_once() {
    let ec = ECService::new(2, 2).unwrap();
    let fragments = ec.encode(&vec![1, 2, 3]).unwrap();
    let twice = vec![fragments[0].clone(), fragments[0].clone()];
    assert_eq!(ec.decode(&twice), Err(ECError::TooFewShardsPresent));
}

#[test]
fn last_fragment_of_an_index_counts() {
    let ec = ECService::new(2, 2).unwrap();
    let value = vec![1, 2, 3];
    let fragments = ec.encode(&value).unwrap();
    let mut mixed = vec![fragment(0, &[9, 9, 9, 9, 9, 9])];
    mixed.extend(fragments.iter().take(2).cloned());
    assert_eq!(ec.decode(&mixed), Ok(value));
}

#[test]
fn fragments_of_no_slot_are_skipped() {
    let ec = ECService::new(2, 1).unwrap();
    let value = vec![4, 4];
    let mut fragments = ec.encode(&value).unwrap();
    fragments.push(fragment(3, &[1]));
    fragments.push(fragment(100, &[]));
    assert_eq!(ec.decode(&fragments), Ok(value));
}

#[test]
fn codes_without_data_shards_are_refused() {
    assert!(matches!(ECService::new(0, 2), Err(ECError::TooFewDataShards)));
    assert!(matches!(ECService::new(0, 0), Err(ECError::TooFewDataShards)));
}

#[test]
fn codes_without_parity_shards_are_refused() {
    assert!(matches!(ECService::new(2, 0), Err(ECError::TooFewParityShards)));
}

#[test]
fn codes_of_too_many_shards_are_refused() {
    assert!(ECService::new(200, 56).is_ok());
    assert!(matches!(ECService::new(200, 57), Err(ECError::TooManyShards)));
}

#[test]
fn empty_shards_are_refused() {
    let ec = ECService::new(2, 1).unwrap();
    let fragments = vec![fragment(0, &[]), fragment(1, &[])];
    assert_eq!(ec.decode(&fragments), Err(ECError::EmptyShard));
}

#[test]
fn shards_of_different_lengths_are_refused() {
    let ec = ECService::new(2, 1).unwrap();
    let fragments = vec![fragment(0, &[1, 2, 3]), fragment(1, &[1, 2])];
    assert_eq!(ec.decode(&fragments), Err(ECError::IncorrectShardSize));
}

#[test]
fn rows_without_a_length_are_refused() {
    let ec = ECService::new(2, 1).unwrap();
    let fragments = vec![fragment(0, &[0, 0, 0]), fragment(1, &[0, 0, 0])];
    assert_eq!(ec.decode(&fragments), Err(ECError::IncorrectShardSize));
}

#[test]
fn rows_with_too_large_a_length_are_refused() {
    let ec = ECService::new(1, 1).unwrap();
    let exact = vec![fragment(0, &[0, 0, 0, 0, 0, 0, 0, 2, 6, 7])];
    assert_eq!(ec.decode(&exact), Ok(vec![6, 7]));
    let larger = vec![fragment(0, &[0, 0, 0, 0, 0, 0, 0, 3, 6, 7])];
    assert_eq!(ec.decode(&larger), Err(ECError::IncorrectShardSize));
    let largest = vec![fragment(0, &[255, 255, 255, 255, 255, 255, 255, 255, 6, 7])];
    assert_eq!(ec.decode(&largest), Err(ECError::IncorrectShardSize));
}

#[test]
fn assemble_reads_the_data_shards() {
    let ec = ECService::new(2, 1).unwrap();
    let slots = vec![
        Some(vec![0, 0, 0, 0, 0]),
        Some(vec![0, 0, 1, 42, 0]),
        None,
    ];
    assert_eq!(ec.assemble(&slots), Ok(vec![42]));
}

#[test]
fn length_prefix_is_a_word() {
    assert_eq!(ECService::LENGTH_PREFIX_BYTES, std::mem::size_of::<usize>());
}

#[test]
fn fragments_go_round_the_nodes() {
    assert_eq!(ECService::fragment_index_for_node(1, 0, 3), 1);
    assert_eq!(ECService::fragment_index_for_node(3, 0, 3), 0);
    assert_eq!(ECService::fragment_index_for_node(2, 5, 4), 3);
    for log_idx in 0..7 {
        let mut held: Vec<usize> = (1..=5)
            .map(|node| ECService::fragment_index_for_node(node, log_idx, 5))
            .collect();
        held.sort();
        assert_eq!(held, vec![0, 1, 2, 3, 4]);
    }
    let of_one: Vec<usize> = (0..5)
        .map(|log_idx| ECService::fragment_index_for_node(2, log_idx, 5))
        .collect();
    assert_eq!(of_one, vec![2, 3, 4, 0, 1]);
}

#[test]
fn services_are_copied() {
    let ec = ECService::new(3, 2).unwrap();
    let copy = ec.clone();
    assert_eq!((copy.data_shards, copy.parity_shards), (3, 2));
}

#[test]
fn operations_have_short_names() {
    assert_eq!(OperationType::NULL.to_string(), "NULL");
    assert_eq!(OperationType::SET.to_string(), "SET");
    assert_eq!(OperationType::DELETE.to_string(), "DEL");
}

#[test]
fn entries_keep_their_parts() {
    let entry =
        DefaultLogEntry::from_parts("key".to_string(), fragment(4, &[1, 2]), OperationType::SET);
    assert_eq!(entry.key(), "key");
    assert_eq!(entry.value(), &fragment(4, &[1, 2]));
    assert_eq!(entry.operation(), &OperationType::SET);
    assert_eq!(entry.clone(), entry);
}

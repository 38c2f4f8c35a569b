use omnipaxos_ec::erasure::EntryFragment;
use omnipaxos_ec::storage::StopSign;
use omnipaxos_ec::util::{ClusterConfigEC, FlexibleQuorum};
use omnipaxos_ec::wire::{serialize_fragment, serialize_stopsign};

#[test]
fn fragments_are_written_index_first() {
    let bytes = serialize_fragment(&EntryFragment::new(258, vec![1, 2, 3]));
    let expected = vec![
        2, 1, 0, 0, 0, 0, 0, 0, // index
        3, 0, 0, 0, 0, 0, 0, 0, // length
        1, 2, 3,
    ];
    assert_eq!(bytes, expected);
}

#[test]
fn empty_fragments_are_written() {
    assert_eq!(serialize_fragment(&EntryFragment::new(0, vec![])), vec![0; 16]);
}

#[test]
fn stopsigns_without_options_are_written() {
    let ss = StopSign {
        next_config: ClusterConfigEC {
            configuration_id: 513,
            nodes: vec![1, 3],
            flexible_quorum: None,
        },
        metadata: None,
    };
    let expected = vec![
        1, 2, 0, 0, // configuration
        2, 0, 0, 0, 0, 0, 0, 0, // servers
        1, 0, 0, 0, 0, 0, 0, 0, //
        3, 0, 0, 0, 0, 0, 0, 0, //
        0, // quorum
        0, // metadata
    ];
    assert_eq!(serialize_stopsign(&ss), expected);
}

#[test]
fn stopsigns_with_options_are_written() {
    let ss = StopSign {
        next_config: ClusterConfigEC {
            configuration_id: 1,
            nodes: vec![],
            flexible_quorum: Some(FlexibleQuorum {
                read_quorum_size: 4,
                write_quorum_size: 2,
            }),
        },
        metadata: Some(vec![9, 8]),
    };
    let expected = vec![
        1, 0, 0, 0, // configuration
        0, 0, 0, 0, 0, 0, 0, 0, // servers
        1, 4, 0, 0, 0, 0, 0, 0, 0, 2, 0, 0, 0, 0, 0, 0, 0, // quorum
        1, 2, 0, 0, 0, 0, 0, 0, 0, 9, 8, // metadata
    ];
    assert_eq!(serialize_stopsign(&ss), expected);
    assert_eq!(ss.clone(), ss);
}

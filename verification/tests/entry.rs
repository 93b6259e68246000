use josefine_raft::entry::{Entry, HEADER_LEN};

#[test]
fn entry_is_encoded_as_term_index_payload() {
    let entry = Entry { term: 0x0102, index: 3, data: vec![0xaa, 0xbb] };
    assert_eq!(
        entry.encode(),
        vec![2, 1, 0, 0, 0, 0, 0, 0, 3, 0, 0, 0, 0, 0, 0, 0, 0xaa, 0xbb]
    );
    assert_eq!(HEADER_LEN, 16);
}

#[test]
fn encoded_entry_is_read_back() {
    let entries = vec![
        Entry { term: 0, index: 0, data: vec![] },
        Entry { term: 1, index: 1, data: vec![0] },
        Entry { term: u64::MAX, index: u64::MAX - 1, data: vec![1, 2, 3, 255] },
        Entry { term: 0x0807_0605_0403_0201, index: 0x1817_1615_1413_1211, data: vec![7; 300] },
    ];
    for entry in entries {
        let bytes = entry.encode();
        assert_eq!(bytes.len(), 16 + entry.data.len());
        assert_eq!(Entry::decode(&bytes), Some(entry));
    }
}

#[test]
fn short_input_is_no_entry() {
    assert_eq!(Entry::decode(&vec![]), None);
    assert_eq!(Entry::decode(&vec![0; 15]), None);
    assert_eq!(Entry::decode(&vec![0; 16]), Some(Entry { term: 0, index: 0, data: vec![] }));
}

#[test]
fn decoded_bytes_are_encoded_back() {
    let bytes: Vec<u8> = (0..40).collect();
    let entry = Entry::decode(&bytes).unwrap();
    assert_eq!(entry.term, 0x0706_0504_0302_0100);
    assert_eq!(entry.index, 0x0f0e_0d0c_0b0a_0908);
    assert_eq!(entry.data, (16..40).collect::<Vec<u8>>());
    assert_eq!(entry.encode(), bytes);
}

#[test]
fn clone_keeps_the_entry() {
    let entry = Entry { term: 4, index: 9, data: vec![1, 2] };
    assert_eq!(entry.clone(), entry);
}

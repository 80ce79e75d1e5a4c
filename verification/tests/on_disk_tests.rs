use dirstate::dirstate_map::DirstateMap;
use dirstate::dirstate_map::Node;
use dirstate::dirstate_map::NodeData;
use dirstate::entry::DirstateEntry;
use dirstate::entry::EntryState;
use dirstate::on_disk::parse_tree_metadata;
use dirstate::on_disk::read;
use dirstate::on_disk::read_docket;
use dirstate::on_disk::read_node;
use dirstate::on_disk::Timestamp;

fn docket_bytes(meta: &[u8], data_size: u32, uuid: &[u8]) -> Vec<u8> {
    let mut bytes = Vec::new();
    bytes.extend_from_slice(b"dirstate-v2\n");
    bytes.extend_from_slice(&[0x11; 32]);
    bytes.extend_from_slice(&[0x22; 32]);
    bytes.extend_from_slice(meta);
    bytes.extend_from_slice(&data_size.to_be_bytes());
    bytes.push(uuid.len() as u8);
    bytes.extend_from_slice(uuid);
    bytes
}

#[test]
fn docket_parse() {
    let meta = [0u8; 44];
    let bytes = docket_bytes(&meta, 0x1000, b"abcd");
    let docket = read_docket(&bytes).unwrap();
    let (p1, p2) = docket.parents();
    assert_eq!(p1, vec![0x11; 20]);
    assert_eq!(p2, vec![0x22; 20]);
    assert_eq!(docket.data_size(), 4096);
    assert_eq!(docket.data_filename(), b"dirstate.abcd".to_vec());
    assert_eq!(docket.tree_metadata().as_slice(), &meta[..]);
}

#[test]
fn docket_parse_errors() {
    let meta = [0u8; 44];
    // bad marker
    let mut bytes = docket_bytes(&meta, 0, b"ab");
    bytes[0] = b'x';
    assert!(read_docket(&bytes).is_err());
    // truncated
    assert!(read_docket(&[0u8; 10]).is_err());
    // uuid length mismatch
    let mut bytes = docket_bytes(&meta, 0, b"ab");
    bytes[124] = 3;
    assert!(read_docket(&bytes).is_err());
}

#[test]
fn tree_metadata_parse() {
    let mut meta = Vec::new();
    meta.extend_from_slice(&100u32.to_be_bytes());
    meta.extend_from_slice(&2u32.to_be_bytes());
    meta.extend_from_slice(&7u32.to_be_bytes());
    meta.extend_from_slice(&3u32.to_be_bytes());
    meta.extend_from_slice(&9u32.to_be_bytes());
    meta.extend_from_slice(&[0u8; 4]);
    meta.extend_from_slice(&[0xabu8; 20]);
    let parsed = parse_tree_metadata(&meta).unwrap();
    assert_eq!(parsed.root_nodes_start, 100);
    assert_eq!(parsed.root_nodes_len, 2);
    assert_eq!(parsed.nodes_with_entry_count, 7);
    assert_eq!(parsed.nodes_with_copy_source_count, 3);
    assert_eq!(parsed.unreachable_bytes, 9);
    assert_eq!(parsed.ignore_patterns_hash, vec![0xab; 20]);
    assert!(parse_tree_metadata(&meta[..40]).is_err());
}

fn leaf(path: &[u8], base_name_start: usize, entry: DirstateEntry) -> Node {
    Node {
        full_path: path.to_vec(),
        base_name_start,
        copy_source: None,
        data: NodeData::Entry(entry),
        descendants_with_entry_count: 0,
        tracked_descendants_count: 0,
        children: Vec::new(),
        path_offset: None,
        copy_offset: None,
        children_offsets: None,
    }
}

fn sample_entry() -> DirstateEntry {
    DirstateEntry::from_v1_data(EntryState::Normal, 0o644, 10, 1000)
}

fn assert_same_shape(a: &[Node], b: &[Node]) {
    assert_eq!(a.len(), b.len());
    for (x, y) in a.iter().zip(b.iter()) {
        assert_eq!(x.full_path, y.full_path);
        assert_eq!(x.base_name_start, y.base_name_start);
        assert_eq!(x.copy_source, y.copy_source);
        assert_eq!(
            x.descendants_with_entry_count,
            y.descendants_with_entry_count
        );
        assert_eq!(x.tracked_descendants_count, y.tracked_descendants_count);
        match (&x.data, &y.data) {
            (NodeData::Entry(e1), NodeData::Entry(e2)) => assert_eq!(e1, e2),
            (NodeData::CachedDirectory(t1), NodeData::CachedDirectory(t2)) => {
                assert_eq!(t1, t2)
            }
            (NodeData::NoData, NodeData::NoData) => {}
            _ => panic!("node data kinds differ"),
        }
        assert_same_shape(&x.children, &y.children);
    }
}

#[test]
fn container_round_trip() {
    // a two-level tree with an entry, a cached directory mtime and a copy
    // source
    let mut dir = Node {
        full_path: b"lib".to_vec(),
        base_name_start: 0,
        copy_source: None,
        data: NodeData::CachedDirectory(Timestamp {
            seconds: -3,
            nanoseconds: 40,
        }),
        descendants_with_entry_count: 2,
        tracked_descendants_count: 2,
        children: Vec::new(),
        path_offset: None,
        copy_offset: None,
        children_offsets: None,
    };
    let mut renamed = leaf(b"lib/b.rs", 4, sample_entry());
    renamed.copy_source = Some(b"lib/old.rs".to_vec());
    dir.children.push(leaf(b"lib/a.rs", 4, sample_entry()));
    dir.children.push(renamed);
    let map = DirstateMap {
        root: vec![dir, leaf(b"main.rs", 0, sample_entry())],
        root_offsets: None,
        nodes_with_entry_count: 3,
        nodes_with_copy_source_count: 1,
        ignore_patterns_hash: vec![0x5a; 20],
        unreachable_bytes: 17,
        on_disk_len: 0,
    };
    let (data, meta, appended) = dirstate::on_disk::write(&map, false).unwrap();
    assert!(!appended);
    let reread = read(&data, &meta).unwrap();
    assert_same_shape(&map.root, &reread.root);
    assert_eq!(reread.nodes_with_entry_count, 3);
    assert_eq!(reread.nodes_with_copy_source_count, 1);
    assert_eq!(reread.unreachable_bytes, 17);
    assert_eq!(reread.ignore_patterns_hash, vec![0x5a; 20]);
}

#[test]
fn children_arrays_are_sorted_and_checked() {
    let mut map = DirstateMap::empty(b"");
    // inserted out of order; the tree keeps them sorted
    map.set_entry(b"b", sample_entry()).unwrap();
    map.set_entry(b"a", sample_entry()).unwrap();
    map.set_entry(b"c/d", sample_entry()).unwrap();
    assert_eq!(map.root[0].full_path, b"a".to_vec());
    assert_eq!(map.root[1].full_path, b"b".to_vec());
    assert_eq!(map.root[2].full_path, b"c".to_vec());
    let (data, meta, _) = dirstate::on_disk::write(&map, false).unwrap();
    // a reader accepts the serialized arrays (it rejects unsorted ones)
    let reread = read(&data, &meta).unwrap();
    assert_eq!(reread.root.len(), 3);
    assert!(reread.get(b"c/d").is_some());

    // hand-corrupt the order of the two leading root records: the base
    // names swap, and reading must now fail
    let parsed = parse_tree_metadata(&meta).unwrap();
    let start = parsed.root_nodes_start as usize;
    let mut bad = data.clone();
    for i in 0..43 {
        bad.swap(start + i, start + 43 + i);
    }
    assert!(read(&bad, &meta).is_err());
}

#[test]
fn get_and_set_entries() {
    let mut map = DirstateMap::empty(b"");
    assert!(map.get(b"a/b").is_none());
    map.set_entry(b"a/b", sample_entry()).unwrap();
    assert_eq!(map.get(b"a/b"), Some(sample_entry()));
    // the intermediate directory has no entry
    assert!(map.get(b"a").is_none());
    assert!(!map.contains_key(b"a"));
    assert!(map.contains_key(b"a/b"));

    // overwriting replaces the payload
    let other = DirstateEntry::from_v1_data(EntryState::Added, 0, -1, -1);
    map.set_entry(b"a/b", other).unwrap();
    assert_eq!(map.get(b"a/b"), Some(other));
}

#[test]
fn tracked_paths_in_order() {
    let mut map = DirstateMap::empty(b"");
    map.set_entry(b"x", sample_entry()).unwrap();
    map.set_entry(b"a/b", sample_entry()).unwrap();
    map.set_entry(b"a/c", DirstateEntry::new_removed(0)).unwrap();
    let paths = map.tracked_paths();
    assert_eq!(paths, vec![b"a/b".to_vec(), b"x".to_vec()]);
}

#[test]
fn append_reuses_unchanged_regions() {
    // write a container with the single path "a/b", then read it back
    let mut map = DirstateMap::empty(b"");
    map.set_entry(b"a/b", sample_entry()).unwrap();
    let (data1, meta1, appended1) = dirstate::on_disk::write(&map, false).unwrap();
    assert!(!appended1);
    let mut map2 = read(&data1, &meta1).unwrap();

    // where the first write put things: "a/b" path bytes first, then the
    // record of b, then the path "a", then the record of a
    let parsed1 = parse_tree_metadata(&meta1).unwrap();
    let a1 = read_node(&data1, parsed1.root_nodes_start as usize).unwrap();
    assert_eq!(a1.full_path_start, 46);
    let b1 = read_node(&data1, a1.children_start as usize).unwrap();
    assert_eq!(b1.full_path_start, 0);

    // add a sibling and append
    map2.set_entry(b"a/c", sample_entry()).unwrap();
    let (data2, meta2, appended2) = dirstate::on_disk::write(&map2, true).unwrap();
    assert!(appended2);
    // the new data holds only the bytes of "a/c", the rewritten children
    // array of "a" (two records) and the new root array (one record)
    assert_eq!(data2.len(), 3 + 2 * 43 + 43);

    let mut combined = data1.clone();
    combined.extend_from_slice(&data2);
    let parsed2 = parse_tree_metadata(&meta2).unwrap();
    assert!(parsed2.root_nodes_start as usize >= data1.len());
    let a2 = read_node(&combined, parsed2.root_nodes_start as usize).unwrap();
    // the path bytes of "a" are reused from the old region
    assert_eq!(a2.full_path_start, a1.full_path_start);
    let b2 = read_node(&combined, a2.children_start as usize).unwrap();
    // the offset of "a/b" is unchanged
    assert_eq!(b2.full_path_start, b1.full_path_start);
    let c2 = read_node(&combined, a2.children_start as usize + 43).unwrap();
    // the path bytes of "a/c" live in the appended region
    assert!(c2.full_path_start as usize >= data1.len());

    let map3 = read(&combined, &meta2).unwrap();
    assert_eq!(map3.get(b"a/b"), Some(sample_entry()));
    assert_eq!(map3.get(b"a/c"), Some(sample_entry()));
}

#[test]
fn empty_data_reads_as_empty_map() {
    let map = read(b"", b"").unwrap();
    assert!(map.root.is_empty());
    assert_eq!(map.nodes_with_entry_count, 0);
}

#[test]
fn node_decode_checks_bounds() {
    assert!(read_node(&[0u8; 42], 0).is_err());
    let bytes = [0u8; 86];
    assert!(read_node(&bytes, 43).is_ok());
    assert!(read_node(&bytes, 44).is_err());
}

#[test]
fn clear_and_counters() {
    let mut map = DirstateMap::empty(b"");
    map.nodes_with_entry_count = 4;
    map.nodes_with_copy_source_count = 2;
    assert_eq!(map.len(), 4);
    assert_eq!(map.copy_map_len(), 2);
    map.set_entry(b"a", sample_entry()).unwrap();
    map.clear();
    assert!(map.root.is_empty());
    assert_eq!(map.len(), 0);
    assert_eq!(map.copy_map_len(), 0);
}

#[test]
fn cyclic_node_references_are_rejected() {
    // one record at offset 0 whose children slice points back at itself
    let mut data = vec![0u8; 43];
    // full_path: one byte at offset 0, base name starting at 0
    data[5] = 1;
    // children: start 0, len 1 -> a cycle
    data[21] = 1;
    let mut meta = Vec::new();
    meta.extend_from_slice(&0u32.to_be_bytes());
    meta.extend_from_slice(&1u32.to_be_bytes());
    meta.extend_from_slice(&[0u8; 36]);
    assert!(read(&data, &meta).is_err());
}

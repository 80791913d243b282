use early_mem::hash_map::HashMap;

const N: u32 = 50_000;

#[test]
fn empty_table_scans_empty() {
    let m: HashMap<String, u32> = HashMap::new(1, 2);
    assert_eq!(m.len(), 0);
    assert_eq!(m.capacity(), 0);
    assert_eq!(m.iter().len(), 0);
}

#[test]
fn first_insert_allocates_initial_capacity() {
    let mut m: HashMap<u64, u64> = HashMap::new(7, 9);
    m.insert(1, 10);
    assert_eq!(m.len(), 1);
    assert_eq!(m.capacity(), 32);
    let scan = m.iter();
    assert_eq!(scan.len(), 1);
    assert_eq!(*scan[0], (1, 10));
}

#[test]
fn distinct_keys_scan_complete() {
    let mut m: HashMap<u32, u32> = HashMap::new(11, 13);
    for i in 0..100u32 {
        m.insert(i, i * 3);
    }
    assert_eq!(m.len(), 100);
    let mut seen = vec![false; 100];
    for p in m.iter() {
        let (k, v) = *p;
        assert_eq!(v, k * 3);
        assert!(!seen[k as usize], "pair reported twice");
        seen[k as usize] = true;
    }
    assert!(seen.iter().all(|s| *s));
}

#[test]
fn growth_crosses_load_threshold() {
    let mut m: HashMap<u32, u32> = HashMap::new(3, 5);
    for i in 0..24u32 {
        m.insert(i, i);
    }
    // 23 entries put occupancy at 70% of 32, so the 24th insert grew the
    // array; all pairs survive the rebuild.
    assert!(m.capacity() >= 64);
    assert_eq!(m.len(), 24);
    let mut seen = vec![false; 24];
    for p in m.iter() {
        let (k, v) = *p;
        assert_eq!(k, v);
        seen[k as usize] = true;
    }
    assert!(seen.iter().all(|s| *s));
}

#[test]
fn duplicate_key_keeps_both_entries() {
    let mut m: HashMap<String, u32> = HashMap::new(21, 22);
    m.insert(String::from("twice"), 1);
    m.insert(String::from("twice"), 2);
    assert_eq!(m.len(), 2);
    let scan = m.iter();
    assert_eq!(scan.len(), 2);
    let mut values: Vec<u32> = scan.iter().map(|p| p.1).collect();
    values.sort();
    assert_eq!(values, vec![1, 2]);
    assert!(scan.iter().all(|p| p.0 == "twice"));
}

#[test]
fn fifty_thousand_keys_round_trip() {
    let mut m: HashMap<String, u32> = HashMap::new(0x1234_5678, 0x9abc_def0);
    for value in 0..N {
        let key = format!("key_{value}");
        m.insert(key, value);
    }
    assert_eq!(m.len(), N as u64);
    let mut count: u32 = 0;
    for p in m.iter() {
        let (k, v) = p;
        let suffix = k.strip_prefix("key_").expect("key shape");
        assert_eq!(suffix.parse::<u32>().unwrap(), *v);
        count += 1;
    }
    assert_eq!(count, N);
}

#[test]
fn same_seed_same_layout() {
    let mut a: HashMap<u32, u32> = HashMap::new(42, 43);
    let mut b: HashMap<u32, u32> = HashMap::new(42, 43);
    for i in 0..50u32 {
        a.insert(i, i);
        b.insert(i, i);
    }
    let pa: Vec<(u32, u32)> = a.iter().into_iter().map(|p| *p).collect();
    let pb: Vec<(u32, u32)> = b.iter().into_iter().map(|p| *p).collect();
    assert_eq!(pa, pb);
}

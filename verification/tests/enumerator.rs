use xplanet::map::{MapEnumerator, MapType};

#[test]
fn pre() {
    let g = MapEnumerator::new();
    let st = std::time::Instant::now();
    let r1 = g.gen_sec(&MapType::Expert).count();
    let elapsed = st.elapsed();
    println!("count: {}", r1);
    println!("Elapsed time: {:?}", elapsed);

    let st = std::time::Instant::now();
    let r2 = g.gen_sec(&MapType::Standard).count();
    let elapsed = st.elapsed();
    println!("count: {}", r2);
    println!("Elapsed time: {:?}", elapsed);

    let mut it = g.gen_sec(&MapType::Expert);
    if let Some(v) = it.nth(1123456) {
        println!("{:?}", v);
    }
}

#[test]
fn enumeration_counts_are_pinned() {
    let g = MapEnumerator::new();
    assert_eq!(g.gen_sec(&MapType::Standard).count(), 4446);
    assert_eq!(g.gen_sec(&MapType::Expert).count(), 1138272);
}

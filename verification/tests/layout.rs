use bytes::Bytes;
use dtr::chunker::split;
use dtr::layout::{
    chunk_key, latest_key, manifest_key, manifest_step_of, manifests_prefix, tmp_prefix, tmp_root,
    tmp_step_of,
};
use dtr::manifest::{sum_bytes, ChunkRecord, Manifest, MANIFEST_FORMAT_VERSION};

fn chunk(rank: u32, part: u32) -> ChunkRecord {
    ChunkRecord {
        key: format!("tmp/ckpt-step-1/rank-{rank}.part-{part:04}"),
        size_bytes: 10,
        sha256: "ab".repeat(32),
        rank,
        part_index: part,
    }
}

#[test]
fn keys_look_as_documented() {
    assert_eq!(tmp_prefix("/ckpt/run/", 7), "ckpt/run/tmp/ckpt-step-7");
    assert_eq!(
        chunk_key("ckpt/run", 7, 12, 3),
        "ckpt/run/tmp/ckpt-step-7/rank-12.part-0003"
    );
    assert_eq!(
        chunk_key("p", 0, 0, 123456),
        "p/tmp/ckpt-step-0/rank-0.part-123456"
    );
    assert_eq!(
        manifest_key("ckpt/run", u64::MAX),
        "ckpt/run/manifests/step-18446744073709551615.json"
    );
    assert_eq!(latest_key("//a/b//"), "a/b/latest.json");
    assert_eq!(manifests_prefix("a/"), "a/manifests");
    assert_eq!(tmp_root("/a"), "a/tmp");
}

#[test]
fn manifest_keys_give_their_step_back() {
    for step in [0u64, 1, 10, 999, u64::MAX] {
        assert_eq!(manifest_step_of(&manifest_key("ckpt/r", step)), step);
        assert_eq!(manifest_step_of(&manifest_key("step-5/x.json", step)), step);
    }
    assert_eq!(manifest_step_of("a/manifests/step-12.json.json"), 12);
    assert_eq!(manifest_step_of("17"), 17);
    assert_eq!(manifest_step_of("a/manifests/step-x.json"), 0);
    assert_eq!(manifest_step_of("a/manifests/other"), 0);
    assert_eq!(manifest_step_of("step-18446744073709551616.json"), 0);
    assert_eq!(manifest_step_of("step-+7.json"), 7);
}

#[test]
fn chunk_keys_give_their_step_back() {
    assert_eq!(tmp_step_of("ckpt/r", &chunk_key("ckpt/r", 42, 1, 0)), Some(42));
    assert_eq!(tmp_step_of("x", "x/tmp/ckpt-step-9"), Some(9));
    assert_eq!(tmp_step_of("x", "x/tmp/ckpt-step-9/ckpt-step-6/y"), Some(9));
    assert_eq!(tmp_step_of("x", "x/ckpt-step-5/y"), None);
    assert_eq!(tmp_step_of("x", "x/tmp/other/ckpt-step-5/y"), None);
    assert_eq!(tmp_step_of("x", "y/tmp/ckpt-step-5/y"), None);
    assert_eq!(tmp_step_of("x", "x/tmp/ckpt-step-abc/y"), None);
    assert_eq!(tmp_step_of("x", "x/tmp/ckpt-step-/y"), None);
    assert_eq!(tmp_step_of("x", "x/tmp/other"), None);
    // A prefix that itself looks like an upload area does not hide the step.
    for prefix in ["ckpt-step-3/r", "a/tmp/ckpt-step-3", "ckpt-step-3"] {
        assert_eq!(tmp_step_of(prefix, &chunk_key(prefix, 42, 1, 0)), Some(42));
    }
    // Stores drop empty path segments.
    assert_eq!(chunk_key("", 42, 1, 0), "/tmp/ckpt-step-42/rank-1.part-0000");
    assert_eq!(tmp_step_of("", "tmp/ckpt-step-42/rank-1.part-0000"), Some(42));
    assert_eq!(tmp_step_of("a//b", "a/b/tmp/ckpt-step-42/rank-1.part-0000"), Some(42));
}

#[test]
fn splits_with_short_tail() {
    let data = Bytes::from(vec![7u8; 10]);
    let chunks = split(data, 4);
    assert_eq!(chunks.len(), 3);
    assert_eq!(chunks[0].len(), 4);
    assert_eq!(chunks[1].len(), 4);
    assert_eq!(chunks[2].len(), 2);
}

#[test]
fn empty_input_yields_no_chunks() {
    assert!(split(Bytes::new(), 4).is_empty());
}

#[test]
fn zero_chunk_size_clamped() {
    let chunks = split(Bytes::from_static(b"ab"), 0);
    assert_eq!(chunks.len(), 2);
}

#[test]
fn reassembly_matches_original() {
    let data = Bytes::from((0..=255u8).collect::<Vec<u8>>());
    let chunks = split(data.clone(), 7);
    let mut joined = Vec::new();
    for c in &chunks {
        joined.extend_from_slice(c);
    }
    assert_eq!(&joined[..], &data[..]);
}

#[test]
fn huge_chunk_size_keeps_the_data_whole() {
    let chunks = split(Bytes::from_static(b"abc"), u64::MAX);
    assert_eq!(chunks, vec![Bytes::from_static(b"abc")]);
}

#[test]
fn manifest_orders_chunks_deterministically() {
    let m = Manifest::new(1, vec![chunk(1, 1), chunk(0, 1), chunk(1, 0), chunk(0, 0)]);
    let order: Vec<(u32, u32)> = m.chunks.iter().map(|c| (c.rank, c.part_index)).collect();
    assert_eq!(order, vec![(0, 0), (0, 1), (1, 0), (1, 1)]);
}

#[test]
fn equal_slots_keep_their_order() {
    let mut first = chunk(2, 0);
    first.key = "first".into();
    let mut second = chunk(2, 0);
    second.key = "second".into();
    let m = Manifest::new_at(9, vec![first, chunk(1, 5), second], "now".into());
    let keys: Vec<&str> = m.chunks.iter().map(|c| c.key.as_str()).collect();
    assert_eq!(
        keys,
        vec!["tmp/ckpt-step-1/rank-1.part-0005", "first", "second"]
    );
    assert_eq!(m.step, 9);
    assert_eq!(m.created_at, "now");
    assert_eq!(m.format_version, MANIFEST_FORMAT_VERSION);
    assert_eq!(MANIFEST_FORMAT_VERSION, 1);
}

#[test]
fn manifest_totals_and_ranks() {
    let m = Manifest::new(
        42,
        vec![chunk(3, 0), chunk(0, 0), chunk(3, 1), chunk(1, 0), chunk(0, 1)],
    );
    assert_eq!(m.total_bytes(), 50);
    assert_eq!(m.ranks(), vec![0, 1, 3]);
    assert_eq!(Manifest::new(1, vec![]).ranks(), Vec::<u32>::new());
}

#[test]
fn manifests_are_stamped_in_utc() {
    let m = Manifest::new(1, vec![chunk(0, 0)]);
    assert!(m.created_at.ends_with("+00:00"));
    assert_eq!(&m.created_at[4..5], "-");
    assert_eq!(&m.created_at[10..11], "T");
}

#[test]
fn oversized_sums_are_told() {
    let mut big = chunk(0, 0);
    big.size_bytes = u64::MAX;
    assert_eq!(sum_bytes(&vec![big.clone()]), Some(u64::MAX));
    assert_eq!(sum_bytes(&vec![big, chunk(0, 1)]), None);
}

use mrt_prefetch::counts::{AttributeCounts, MessageShape};
use bgpkit_parser::models::MrtRecord;
use bgpkit_parser::parse_mrt_record;
use mrt_prefetch::iter::{DecodeOutcome, MsgIter, RecordError};
use std::io::{Cursor, Read};


fn next<R: Read>(it: &mut MsgIter<R>) -> Option<Result<MrtRecord, RecordError>> {
    if !it.begin() {
        return None;
    }
    let outcome = match parse_mrt_record(it) {
        Ok(record) => DecodeOutcome::Decoded(record),
        Err(e) => DecodeOutcome::Failed(e.error),
    };
    it.finish_attempt(outcome)
}

fn mrt(entry_type: u16, subtype: u16, body: &[u8]) -> Vec<u8> {
    let mut out = vec![0, 0, 0, 1];
    out.extend_from_slice(&entry_type.to_be_bytes());
    out.extend_from_slice(&subtype.to_be_bytes());
    out.extend_from_slice(&(body.len() as u32).to_be_bytes());
    out.extend_from_slice(body);
    out
}

fn update_record(attrs: &[u8]) -> Vec<u8> {
    let mut payload = vec![0, 0];
    payload.extend_from_slice(&(attrs.len() as u16).to_be_bytes());
    payload.extend_from_slice(attrs);
    payload.extend_from_slice(&[8, 10]);
    let mut bgp = vec![0xff; 16];
    bgp.extend_from_slice(&((19 + payload.len()) as u16).to_be_bytes());
    bgp.push(2);
    bgp.extend(payload);
    let mut body = vec![0, 1, 0, 2, 0, 0, 0, 1, 10, 0, 0, 1, 10, 0, 0, 2];
    body.extend(bgp);
    mrt(16, 1, &body)
}

const ORIGIN: [u8; 4] = [0x40, 1, 1, 0];
const NEXT_HOP: [u8; 7] = [0x40, 3, 4, 10, 0, 0, 1];

fn origin_and_next_hop() -> Vec<u8> {
    let mut attrs = NEXT_HOP.to_vec();
    attrs.extend_from_slice(&ORIGIN);
    update_record(&attrs)
}

fn origin_only() -> Vec<u8> {
    update_record(&ORIGIN)
}

fn counts_of_stream(bytes: Vec<u8>) -> (AttributeCounts, usize) {
    let mut counts = AttributeCounts::new();
    let mut errors = 0;
    let mut it = MsgIter::new(Cursor::new(bytes));
    while let Some(attempt) = next(&mut it) {
        if counts.tally(attempt).is_some() {
            errors += 1;
        }
    }
    (counts, errors)
}

#[test]
fn add_to_count_sorts_the_group() {
    let mut counts = AttributeCounts::new();
    counts.add_to_count(vec![3, 1, 2]);
    counts.add_to_count(vec![2, 3, 1]);
    counts.add_to_count(vec![1]);
    assert_eq!(counts.count_of_group(&vec![1, 2, 3]), 2);
    assert_eq!(counts.count_of_group(&vec![3, 1, 2]), 0);
    assert_eq!(counts.count_of_group(&vec![1]), 1);
    assert_eq!(counts.total_of(1), 3);
    assert_eq!(counts.total_of(2), 2);
    assert_eq!(counts.total_of(4), 0);
    assert_eq!(counts.groups().len(), 2);
}

#[test]
fn count_record_follows_the_message_kind() {
    let mut counts = AttributeCounts::default();
    counts.count_record(MessageShape::StateChange);
    counts.count_record(MessageShape::PeerIndexTable);
    counts.count_record(MessageShape::OtherBgp);
    assert!(counts.groups().is_empty());
    counts.count_record(MessageShape::Rib { entries: vec![vec![1, 2], vec![2, 1], vec![5]] });
    counts.count_record(MessageShape::Update { attributes: vec![5] });
    counts.count_record(MessageShape::TableDump { attributes: vec![] });
    assert_eq!(counts.count_of_group(&vec![1, 2]), 2);
    assert_eq!(counts.count_of_group(&vec![5]), 2);
    assert_eq!(counts.count_of_group(&vec![]), 1);
    assert_eq!(counts.total_of(2), 2);
    assert_eq!(counts.total_of(5), 2);
}

fn sample(groups: &[&[u8]]) -> AttributeCounts {
    let mut c = AttributeCounts::new();
    for g in groups {
        c.add_to_count(g.to_vec());
    }
    c
}

fn same(a: &AttributeCounts, b: &AttributeCounts) -> bool {
    let keys: Vec<Vec<u8>> = a.groups().into_iter().chain(b.groups()).map(|(k, _)| k).collect();
    keys.iter().all(|k| a.count_of_group(k) == b.count_of_group(k))
        && (0..=255u8).all(|c| a.total_of(c) == b.total_of(c))
}

#[test]
fn merge_order_and_grouping_do_not_matter() {
    let a = || sample(&[&[1, 2], &[3]]);
    let b = || sample(&[&[2, 1], &[4, 4]]);
    let c = || sample(&[&[3], &[1, 2], &[9]]);
    let left = a().reduce(b()).reduce(c());
    let right = a().reduce(b().reduce(c()));
    let swapped = c().reduce(a()).reduce(b());
    assert!(same(&left, &right));
    assert!(same(&left, &swapped));
    assert_eq!(left.count_of_group(&vec![1, 2]), 3);
    assert_eq!(left.count_of_group(&vec![4, 4]), 1);
    assert_eq!(left.total_of(4), 2);
    assert_eq!(left.total_of(3), 2);
    let empty = AttributeCounts::new();
    assert!(same(&a().reduce(empty), &a()));
}

#[test]
fn counts_saturate_instead_of_overflowing() {
    let mut a = AttributeCounts::new();
    a.add_to_count(vec![7]);
    let mut b = AttributeCounts::new();
    b.add_to_count(vec![7]);
    let merged = a.reduce(b);
    assert_eq!(merged.total_of(7), 2);
}

#[test]
fn three_sources_end_to_end() {
    // One source never fetched: it contributes nothing.
    let fetched: Vec<Result<Vec<u8>, &str>> = vec![
        Err("connection refused"),
        Ok([origin_and_next_hop(), origin_only()].concat()),
        Ok([origin_and_next_hop(), origin_only()[..30].to_vec()].concat()),
    ];
    let mut per_source = Vec::new();
    let mut errors = 0;
    for source in fetched {
        if let Ok(bytes) = source {
            let (counts, e) = counts_of_stream(bytes);
            errors += e;
            per_source.push(counts);
        }
    }
    assert_eq!(per_source.len(), 2);
    assert_eq!(errors, 1);
    let total = per_source.into_iter().fold(AttributeCounts::new(), |acc, c| acc.reduce(c));
    assert_eq!(total.total_of(1), 3);
    assert_eq!(total.total_of(3), 2);
    assert_eq!(total.count_of_group(&vec![1, 3]), 2);
    assert_eq!(total.count_of_group(&vec![1]), 1);
}

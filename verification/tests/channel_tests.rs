use walk_assistant::channel::{
    is_plotted, ChannelBank, ChannelSeries, Decoded, Sample, CHANNEL_COUNT, HISTORY_LIMIT,
};

fn pairs<T: Copy>(samples: &[Sample<T>]) -> Vec<(usize, T)> {
    samples.iter().map(|s| (s.index, s.value)).collect()
}

#[test]
fn samples_are_numbered_from_the_current_length() {
    let mut series: ChannelSeries<f64> = ChannelSeries::new(HISTORY_LIMIT);
    assert!(series.is_empty());
    series.extend(&[1.5, -2.0]);
    series.extend(&[]);
    series.extend(&[3.25]);
    assert_eq!(series.len(), 3);
    assert_eq!(pairs(series.samples()), vec![(0, 1.5), (1, -2.0), (2, 3.25)]);
}

#[test]
fn series_never_exceeds_its_limit_and_evicts_oldest_first() {
    let mut series: ChannelSeries<u32> = ChannelSeries::new(HISTORY_LIMIT);
    let first: Vec<u32> = (0..1000).collect();
    series.extend(&first);
    assert_eq!(series.len(), 1000);
    assert_eq!(series.get(0).map(|s| (s.index, s.value)), Some((0, 0)));
    series.extend(&[1000]);
    assert_eq!(series.len(), 1000);
    assert_eq!(series.get(0).map(|s| (s.index, s.value)), Some((1, 1)));
    assert_eq!(series.get(999).map(|s| (s.index, s.value)), Some((1000, 1000)));
    assert!(series.get(1000).is_none());
}

#[test]
fn large_burst_keeps_only_the_newest_thousand() {
    let mut series: ChannelSeries<u32> = ChannelSeries::new(HISTORY_LIMIT);
    let burst: Vec<u32> = (0..2500).collect();
    series.extend(&burst);
    assert_eq!(series.len(), 1000);
    assert_eq!(series.get(0).map(|s| (s.index, s.value)), Some((1500, 1500)));
    assert_eq!(series.get(999).map(|s| (s.index, s.value)), Some((2499, 2499)));
    series.extend(&[7, 8]);
    assert_eq!(series.len(), 1000);
    assert_eq!(series.get(0).map(|s| (s.index, s.value)), Some((1502, 1502)));
    assert_eq!(series.get(998).map(|s| (s.index, s.value)), Some((1000, 7)));
    assert_eq!(series.get(999).map(|s| (s.index, s.value)), Some((1001, 8)));
}

#[test]
fn small_limits_work_too() {
    let mut series: ChannelSeries<u8> = ChannelSeries::new(3);
    assert_eq!(series.capacity(), 3);
    series.extend(&[10, 11]);
    series.extend(&[12, 13]);
    assert_eq!(pairs(series.samples()), vec![(1, 11), (2, 12), (3, 13)]);
    let mut none: ChannelSeries<u8> = ChannelSeries::new(0);
    none.extend(&[1, 2, 3]);
    assert_eq!(none.len(), 0);
    series.clear();
    assert!(series.is_empty());
    assert_eq!(series.capacity(), 3);
}

#[test]
fn bank_has_ten_empty_channels() {
    let bank: ChannelBank<f64> = ChannelBank::new();
    assert_eq!(CHANNEL_COUNT, 10);
    for c in 0..CHANNEL_COUNT {
        let series = bank.channel(c).unwrap();
        assert!(series.is_empty());
        assert_eq!(series.capacity(), HISTORY_LIMIT);
    }
    assert!(bank.channel(10).is_none());
}

#[test]
fn record_touches_only_the_named_channel() {
    let mut bank: ChannelBank<f64> = ChannelBank::new();
    assert!(bank.record(3, &[1.0, 2.0]));
    assert!(bank.record(9, &[5.0]));
    assert!(bank.record(3, &[3.0]));
    assert_eq!(
        pairs(bank.channel(3).unwrap().samples()),
        vec![(0, 1.0), (1, 2.0), (2, 3.0)]
    );
    assert_eq!(pairs(bank.channel(9).unwrap().samples()), vec![(0, 5.0)]);
    for c in [0usize, 1, 2, 4, 5, 6, 7, 8] {
        assert!(bank.channel(c).unwrap().is_empty());
    }
}

#[test]
fn channels_above_nine_are_ignored() {
    let mut bank: ChannelBank<f64> = ChannelBank::new();
    assert!(!bank.record(10, &[1.0]));
    assert!(!bank.record(255, &[1.0]));
    for c in 0..CHANNEL_COUNT {
        assert!(bank.channel(c).unwrap().is_empty());
    }
}

#[test]
fn bank_channels_are_bounded() {
    let mut bank: ChannelBank<u32> = ChannelBank::with_limit(4);
    for round in 0..10u32 {
        assert!(bank.record(0, &[round * 3, round * 3 + 1, round * 3 + 2]));
        assert!(bank.channel(0).unwrap().len() <= 4);
    }
    let kept: Vec<u32> = bank.channel(0).unwrap().samples().iter().map(|s| s.value).collect();
    assert_eq!(kept, vec![26, 27, 28, 29]);
}

#[test]
fn store_handles_both_decode_outcomes() {
    let mut bank: ChannelBank<f64> = ChannelBank::new();
    assert!(!bank.store(&Decoded::Nothing));
    assert!(bank.store(&Decoded::Samples { channel: 1, values: vec![10.0, -10.0] }));
    assert!(!bank.store(&Decoded::Samples { channel: 12, values: vec![1.0] }));
    assert_eq!(pairs(bank.channel(1).unwrap().samples()), vec![(0, 10.0), (1, -10.0)]);
    bank.clear();
    assert!(bank.channel(1).unwrap().is_empty());
    assert_eq!(bank.channel(1).unwrap().capacity(), HISTORY_LIMIT);
}

#[test]
fn channels_zero_to_nine_are_plotted() {
    for c in 0..=9u8 {
        assert!(is_plotted(c));
    }
    assert!(!is_plotted(10));
    assert!(!is_plotted(255));
}

#[test]
fn failed_decode_skips_the_frame_as_a_whole() {
    let mut bank: ChannelBank<f64> = ChannelBank::new();
    assert!(bank.store_outcome(&Ok(Decoded::Samples { channel: 2, values: vec![1.0, 2.0] })));
    assert!(!bank.store_outcome(&Err(())));
    assert!(!bank.store_outcome(&Ok(Decoded::Nothing)));
    assert!(!bank.store_outcome(&Ok(Decoded::Samples { channel: 10, values: vec![3.0] })));
    assert!(bank.store_outcome(&Ok(Decoded::Samples { channel: 2, values: vec![4.0] })));
    assert_eq!(
        pairs(bank.channel(2).unwrap().samples()),
        vec![(0, 1.0), (1, 2.0), (2, 4.0)]
    );
    for c in [0usize, 1, 3, 4, 5, 6, 7, 8, 9] {
        assert!(bank.channel(c).unwrap().is_empty());
    }
}

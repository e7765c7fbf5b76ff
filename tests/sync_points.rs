use scribe::sync::{find_next_sync, find_sync_range, ParseError, MAX_SYNCPOINTS};

fn psb() -> Vec<u8> {
    let mut v = Vec::new();
    for _ in 0..8 {
        v.push(0x02);
        v.push(0x82);
    }
    v
}

#[test]
fn next_sync_after_leading_bytes() {
    let mut s = vec![0xAA, 0xBB, 0x02];
    s.extend(psb());
    assert_eq!(find_next_sync(&s), Some(3));
}

#[test]
fn next_sync_at_start() {
    let s = psb();
    assert_eq!(find_next_sync(&s), Some(0));
}

#[test]
fn next_sync_needs_whole_psb() {
    let s = psb();
    assert_eq!(find_next_sync(&s[..15]), None);
    assert_eq!(find_next_sync(&[]), None);
}

#[test]
fn sync_range_without_psb() {
    assert_eq!(find_sync_range(&[]), Err(ParseError::NoSync));
    assert_eq!(find_sync_range(&[1, 2, 3, 4]), Err(ParseError::NoSync));
}

#[test]
fn sync_range_with_one_psb() {
    let mut s = vec![7, 7];
    s.extend(psb());
    s.extend([0x19, 0x00, 0x01]);
    assert_eq!(find_sync_range(&s), Err(ParseError::OneSync(2)));
}

#[test]
fn sync_range_between_two_psbs() {
    let mut s = psb();
    s.extend([0x12, 0x34, 0x56, 0x78]);
    s.extend(psb());
    s.extend([0x99]);
    let r = find_sync_range(&s).unwrap();
    assert_eq!(r, 0..20);
    assert_eq!(&s[r.start..r.start + 2], &[0x02, 0x82]);
    assert_eq!(&s[r.end..r.end + 2], &[0x02, 0x82]);
}

#[test]
fn sync_range_ends_on_last_psb() {
    let mut s = psb();
    s.extend([0x01]);
    s.extend(psb());
    s.extend([0x02, 0x03]);
    s.extend(psb());
    s.extend([0x04]);
    assert_eq!(find_sync_range(&s).unwrap(), 0..35);
}

#[test]
fn sync_range_stops_at_cap() {
    let mut s = Vec::new();
    for _ in 0..(MAX_SYNCPOINTS + 2) {
        s.extend(psb());
        s.push(0x00);
    }
    let r = find_sync_range(&s).unwrap();
    assert_eq!(r.start, 0);
    assert_eq!(r.end, 17 * (MAX_SYNCPOINTS - 1));
}

fn naive_next_sync(s: &[u8]) -> Option<usize> {
    let p = psb();
    (0..s.len()).find(|&i| s.len() - i >= 16 && s[i..i + 16] == p[..])
}

#[test]
fn next_sync_at_every_offset() {
    for off in 0..40 {
        for decoy in [0usize, 6, 14, 15] {
            let mut s = vec![0x00; off];
            let mut d = psb();
            d.truncate(decoy);
            s.extend(d);
            s.push(0x11);
            let at = s.len();
            s.extend(psb());
            s.extend([0x00; 3]);
            assert_eq!(find_next_sync(&s), Some(at));
            assert_eq!(find_next_sync(&s), naive_next_sync(&s));
        }
    }
}

#[test]
fn next_sync_psb_at_end() {
    for off in 0..20 {
        let mut s = vec![0x33; off];
        s.extend(psb());
        assert_eq!(find_next_sync(&s), Some(off));
        assert_eq!(find_next_sync(&s[..s.len() - 1]), None);
    }
}

#[test]
fn next_sync_pattern_starting_with_second_byte() {
    let mut s = vec![0x82];
    s.extend(psb());
    assert_eq!(find_next_sync(&s), Some(1));
}

//! Locating PSB (packet stream boundary) synchronisation points in raw
//! Intel PT data.
use vstd::prelude::*;

verus! {

/// Opcode byte of a PSB packet.
pub const PT_OPC_PSB: u8 = 0x02;

/// Extended opcode byte of a PSB packet.
pub const PT_EXT_PSB: u8 = 0x82;

/// Size of a PSB packet in bytes: the opcode pair repeated eight times.
pub const PSB_SIZE: usize = 16;

/// Maximum number of synchronisation points gathered into one work item.
pub const MAX_SYNCPOINTS: usize = 128;

/// Why no sync-aligned range could be taken from a slice.
#[derive(Debug, Clone, Copy, PartialEq, Eq, Structural)]
pub enum ParseError {
    /// The slice holds no PSB at all.
    NoSync,
    /// The slice holds exactly one PSB, at the given offset.
    OneSync(usize),
}

/// The byte a PSB carries at offset `k` of its 16 bytes.
pub open spec fn psb_byte(k: int) -> u8 {
    if k % 2 == 0 {
        PT_OPC_PSB
    } else {
        PT_EXT_PSB
    }
}

/// A complete PSB starts at offset `i` of `s`.
pub open spec fn is_psb_at(s: Seq<u8>, i: int) -> bool {
    &&& 0 <= i
    &&& i + PSB_SIZE <= s.len()
    &&& forall|k: int| 0 <= k < PSB_SIZE ==> #[trigger] s[i + k] == psb_byte(k)
}

/// The first PSB of `s` at or after offset `from`.
pub open spec fn next_psb(s: Seq<u8>, from: int) -> Option<int>
    decreases s.len() - from,
{
    if from < 0 || from >= s.len() {
        None
    } else if is_psb_at(s, from) {
        Some(from)
    } else {
        next_psb(s, from + 1)
    }
}

/// Up to `remaining` further PSBs of `s`, each the first one after its
/// predecessor, starting after offset `last`.
pub open spec fn syncs_after(s: Seq<u8>, last: int, remaining: nat) -> Seq<int>
    decreases remaining,
{
    if remaining == 0 {
        Seq::empty()
    } else {
        match next_psb(s, last + 1) {
            Some(p) => seq![p].add(syncs_after(s, p, (remaining - 1) as nat)),
            None => Seq::empty(),
        }
    }
}

/// The chain of sync points that one work item covers: the first PSB of
/// `s`, then each next PSB, at most `MAX_SYNCPOINTS` of them.
pub open spec fn sync_points(s: Seq<u8>) -> Seq<int> {
    match next_psb(s, 0) {
        Some(a) => seq![a].add(syncs_after(s, a, (MAX_SYNCPOINTS - 1) as nat)),
        None => Seq::empty(),
    }
}

/// The range from the first to the last sync point of the chain, or why
/// there is none.
pub open spec fn sync_range(s: Seq<u8>) -> Result<(int, int), ParseError> {
    let p = sync_points(s);
    if p.len() == 0 {
        Err(ParseError::NoSync)
    } else if p.len() == 1 {
        Err(ParseError::OneSync(p[0] as usize))
    } else {
        Ok((p[0], p.last()))
    }
}

/// What `next_psb` finds is a PSB, and none lies between `from` and it.
pub proof fn lemma_next_psb(s: Seq<u8>, from: int)
    requires
        0 <= from,
    ensures
        match next_psb(s, from) {
            Some(p) => from <= p && is_psb_at(s, p) && forall|i: int|
                from <= i < p ==> !#[trigger] is_psb_at(s, i),
            None => forall|i: int| from <= i ==> !#[trigger] is_psb_at(s, i),
        },
    decreases s.len() - from,
{
    if from >= s.len() {
        assert forall|i: int| from <= i implies !#[trigger] is_psb_at(s, i) by {}
    } else if !is_psb_at(s, from) {
        lemma_next_psb(s, from + 1);
    }
}

/// Every sync point of the chain lies after `last`, and each is a PSB.
pub proof fn lemma_syncs_after(s: Seq<u8>, last: int, remaining: nat)
    requires
        0 <= last,
    ensures
        syncs_after(s, last, remaining).len() <= remaining,
        forall|j: int|
            0 <= j < syncs_after(s, last, remaining).len() ==> last < #[trigger] syncs_after(
                s,
                last,
                remaining,
            )[j] && is_psb_at(s, syncs_after(s, last, remaining)[j]),
    decreases remaining,
{
    if remaining > 0 {
        lemma_next_psb(s, last + 1);
        if let Some(p) = next_psb(s, last + 1) {
            lemma_syncs_after(s, p, (remaining - 1) as nat);
            let tail = syncs_after(s, p, (remaining - 1) as nat);
            assert(syncs_after(s, last, remaining) == seq![p].add(tail));
            assert forall|j: int|
                0 <= j < syncs_after(s, last, remaining).len() implies last
                < #[trigger] syncs_after(s, last, remaining)[j] && is_psb_at(
                s,
                syncs_after(s, last, remaining)[j],
            ) by {
                if j > 0 {
                    assert(syncs_after(s, last, remaining)[j] == tail[j - 1]);
                }
            }
        }
    }
}

/// The chain grows by one point: taking the next PSB after `last` leaves
/// the chain after that point.
proof fn lemma_syncs_after_step(s: Seq<u8>, last: int, p: int, remaining: nat)
    requires
        remaining > 0,
        next_psb(s, last + 1) == Some(p),
    ensures
        syncs_after(s, last, remaining) == seq![p].add(syncs_after(s, p, (remaining - 1) as nat)),
{
}

/// When the chain stops short of `remaining` points, no PSB follows its
/// last point (or `last`, if the chain is empty).
proof fn lemma_syncs_after_end(s: Seq<u8>, last: int, remaining: nat)
    requires
        0 <= last,
        syncs_after(s, last, remaining).len() < remaining,
    ensures
        ({
            let c = syncs_after(s, last, remaining);
            let end = if c.len() == 0 {
                last
            } else {
                c.last()
            };
            forall|i: int| end < i ==> !#[trigger] is_psb_at(s, i)
        }),
    decreases remaining,
{
    lemma_next_psb(s, last + 1);
    if let Some(p) = next_psb(s, last + 1) {
        lemma_syncs_after(s, p, (remaining - 1) as nat);
        lemma_syncs_after_end(s, p, (remaining - 1) as nat);
        let tail = syncs_after(s, p, (remaining - 1) as nat);
        assert(syncs_after(s, last, remaining) == seq![p].add(tail));
        if tail.len() > 0 {
            assert(syncs_after(s, last, remaining).last() == tail.last());
        }
    }
}

/// The sync-aligned range of a slice begins and ends on a PSB (whose first
/// two bytes are `0x02 0x82`), its end lies past its start, and when fewer
/// than `MAX_SYNCPOINTS` sync points were gathered no PSB lies past its end.
/// A slice without a sync-aligned range holds no PSB at all, or exactly
/// one PSB after which none follows.
pub proof fn lemma_sync_range_law(s: Seq<u8>)
    requires
        s.len() <= usize::MAX,
    ensures
        match sync_range(s) {
            Ok((a, b)) => {
                &&& is_psb_at(s, a) && is_psb_at(s, b)
                &&& s[a] == 0x02 && s[a + 1] == 0x82 && s[b] == 0x02 && s[b + 1] == 0x82
                &&& a < b
                &&& sync_points(s).len() < MAX_SYNCPOINTS ==> forall|i: int|
                    b < i ==> !#[trigger] is_psb_at(s, i)
            },
            Err(ParseError::NoSync) => forall|i: int| !#[trigger] is_psb_at(s, i),
            Err(ParseError::OneSync(a)) => is_psb_at(s, a as int) && forall|i: int|
                a < i ==> !#[trigger] is_psb_at(s, i),
        },
{
    lemma_next_psb(s, 0);
    if let Some(a) = next_psb(s, 0) {
        let r = (MAX_SYNCPOINTS - 1) as nat;
        let c = syncs_after(s, a, r);
        lemma_syncs_after(s, a, r);
        assert(sync_points(s) == seq![a].add(c));
        if c.len() < r {
            lemma_syncs_after_end(s, a, r);
        }
        if c.len() > 0 {
            let b = c.last();
            assert(sync_points(s).last() == b);
            assert(is_psb_at(s, b));
            assert(s[a + 0] == psb_byte(0) && s[a + 1] == psb_byte(1));
            assert(s[b + 0] == psb_byte(0) && s[b + 1] == psb_byte(1));
        } else {
            assert(sync_points(s)[0] == a);
        }
    } else {
        assert forall|i: int| !#[trigger] is_psb_at(s, i) by {
            if 0 <= i {
            }
        }
    }
}

/// Whether the bytes of `slice` from offset `i` on start with a PSB.
fn psb_at(slice: &[u8], i: usize) -> (r: bool)
    ensures
        r == is_psb_at(slice@, i as int),
{
    if i > slice.len() || slice.len() - i < PSB_SIZE {
        return false;
    }
    let mut k: usize = 0;
    while k < PSB_SIZE
        invariant
            i + PSB_SIZE <= slice.len(),
            k <= PSB_SIZE,
            forall|m: int| 0 <= m < k ==> #[trigger] slice@[i + m] == psb_byte(m),
        decreases PSB_SIZE - k,
    {
        let expected = if k % 2 == 0 {
            PT_OPC_PSB
        } else {
            PT_EXT_PSB
        };
        if slice[i + k] != expected {
            assert(slice@[i + k as int] != psb_byte(k as int));
            return false;
        }
        k += 1;
    }
    true
}

/// The 8 bytes of `s` from offset `w` repeat the PSB pattern, starting with
/// either of its two bytes.
pub open spec fn window_matches(s: Seq<u8>, w: int) -> bool {
    ||| forall|k: int| 0 <= k < 8 ==> #[trigger] s[w + k] == psb_byte(k)
    ||| forall|k: int| 0 <= k < 8 ==> #[trigger] s[w + k] == psb_byte(k + 1)
}

/// Size of the windows compared on the fast path.
const WINDOW: usize = 8;

/// A PSB covers every 8-byte window that starts within its first 9 bytes.
proof fn lemma_psb_covers_window(s: Seq<u8>, p: int, w: int)
    requires
        is_psb_at(s, p),
        p <= w <= p + 8,
    ensures
        window_matches(s, w),
{
    if (w - p) % 2 == 0 {
        assert forall|k: int| 0 <= k < 8 implies #[trigger] s[w + k] == psb_byte(k) by {
            assert(s[p + (w - p + k)] == psb_byte(w - p + k));
        }
    } else {
        assert forall|k: int| 0 <= k < 8 implies #[trigger] s[w + k] == psb_byte(k + 1) by {
            assert(s[p + (w - p + k)] == psb_byte(w - p + k));
        }
    }
}

/// Whether the 8 bytes of `slice` from offset `w` repeat the PSB pattern.
fn window_at(slice: &[u8], w: usize) -> (r: bool)
    requires
        w + WINDOW <= slice@.len(),
    ensures
        r == window_matches(slice@, w as int),
{
    let first = slice[w];
    let phase: usize = if first == PT_OPC_PSB {
        0
    } else if first == PT_EXT_PSB {
        1
    } else {
        assert(slice@[w + 0] != psb_byte(0) && slice@[w + 0] != psb_byte(0int + 1));
        return false;
    };
    let mut k: usize = 0;
    while k < WINDOW
        invariant
            w + WINDOW <= slice.len(),
            phase <= 1,
            slice@[w + 0] == psb_byte(phase as int),
            k <= WINDOW,
            forall|m: int| 0 <= m < k ==> #[trigger] slice@[w + m] == psb_byte(m + phase as int),
        decreases WINDOW - k,
    {
        let expected = if (k + phase) % 2 == 0 {
            PT_OPC_PSB
        } else {
            PT_EXT_PSB
        };
        if slice[w + k] != expected {
            proof {
                assert(slice@[w + k as int] != psb_byte(k + phase as int));
                if phase == 0 {
                    assert(slice@[w + 0] != psb_byte(0int + 1));
                } else {
                    assert(slice@[w + 0] != psb_byte(0));
                }
            }
            return false;
        }
        k += 1;
    }
    proof {
        if phase == 0 {
            assert forall|m: int| 0 <= m < 8 implies #[trigger] slice@[w + m] == psb_byte(m) by {
                assert(slice@[w + m] == psb_byte(m + 0int));
            }
        }
    }
    true
}

/// Finds the first PSB at or after offset `from`. Aligned 8-byte windows
/// are compared against the PSB pattern first; only the offsets whose PSB
/// would cover a matching window are then checked byte by byte.
fn find_next_sync_from(slice: &[u8], from: usize) -> (r: Option<usize>)
    ensures
        r matches Some(p) ==> next_psb(slice@, from as int) == Some(p as int),
        r is None ==> next_psb(slice@, from as int) is None,
{
    let len = slice.len();
    proof {
        lemma_next_psb(slice@, from as int);
    }
    if from >= len || len - from < PSB_SIZE {
        proof {
            assert forall|i: int| from <= i implies !#[trigger] is_psb_at(slice@, i) by {}
        }
        return None;
    }
    let rem = from % WINDOW;
    let mut w: usize = if rem == 0 {
        from
    } else {
        from - rem + WINDOW
    };
    while w <= len && len - w >= WINDOW
        invariant
            len == slice@.len(),
            from < len,
            from <= w,
            forall|i: int| from <= i < w - 7 ==> !#[trigger] is_psb_at(slice@, i),
            match next_psb(slice@, from as int) {
                Some(p) => from <= p && is_psb_at(slice@, p) && forall|i: int|
                    from <= i < p ==> !#[trigger] is_psb_at(slice@, i),
                None => forall|i: int| from <= i ==> !#[trigger] is_psb_at(slice@, i),
            },
        decreases len - w,
    {
        if window_at(slice, w) {
            let mut c: usize = if w >= from + 7 {
                w - 7
            } else {
                from
            };
            while c <= w
                invariant
                    len == slice@.len(),
                    from <= c,
                    w + WINDOW <= len,
                    forall|i: int| from <= i < c ==> !#[trigger] is_psb_at(slice@, i),
                    match next_psb(slice@, from as int) {
                        Some(p) => from <= p && is_psb_at(slice@, p) && forall|i: int|
                            from <= i < p ==> !#[trigger] is_psb_at(slice@, i),
                        None => forall|i: int| from <= i ==> !#[trigger] is_psb_at(slice@, i),
                    },
                decreases w + 1 - c,
            {
                if psb_at(slice, c) {
                    return Some(c);
                }
                c += 1;
            }
        } else {
            proof {
                assert forall|i: int| w - 7 <= i <= w && from <= i implies !#[trigger] is_psb_at(
                    slice@,
                    i,
                ) by {
                    if is_psb_at(slice@, i) {
                        lemma_psb_covers_window(slice@, i, w as int);
                    }
                }
            }
        }
        w += WINDOW;
    }
    proof {
        assert forall|i: int| from <= i implies !#[trigger] is_psb_at(slice@, i) by {
            if i >= w - 7 && is_psb_at(slice@, i) {
                assert(i + 16 <= len);
            }
        }
    }
    None
}

/// Returns the offset of the first PSB in `slice`, if there is one.
pub fn find_next_sync(slice: &[u8]) -> (r: Option<usize>)
    ensures
        r matches Some(p) ==> next_psb(slice@, 0) == Some(p as int),
        r is None ==> next_psb(slice@, 0) is None,
{
    find_next_sync_from(slice, 0)
}

/// Finds the sync points of `slice`, at most `MAX_SYNCPOINTS` of them, and
/// returns the range from the first to the last one.
pub fn find_sync_range(slice: &[u8]) -> (r: Result<std::ops::Range<usize>, ParseError>)
    ensures
        match sync_range(slice@) {
            Ok((a, b)) => r matches Ok(range) && range.start == a && range.end == b,
            Err(e) => r == Err::<std::ops::Range<usize>, ParseError>(e),
        },
{
    let start = match find_next_sync(slice) {
        Some(start) => start,
        None => {
            return Err(ParseError::NoSync);
        },
    };
    let ghost full = sync_points(slice@);
    let ghost found: Seq<int> = seq![start as int];
    let mut count: usize = 1;
    let mut last: usize = start;
    let mut done = false;
    proof {
        lemma_next_psb(slice@, 0);
    }
    while count < MAX_SYNCPOINTS && !done
        invariant
            1 <= count <= MAX_SYNCPOINTS,
            done ==> full == found,
            found.len() == count,
            found[0] == start,
            found.last() == last,
            last < slice.len(),
            full == sync_points(slice@),
            full == found.add(syncs_after(slice@, last as int, (MAX_SYNCPOINTS - count) as nat)),
        decreases MAX_SYNCPOINTS - count + (if done { 0int } else { 1int }),
    {
        let next = if last + 1 >= slice.len() {
            None
        } else {
            find_next_sync_from(slice, last + 1)
        };
        match next {
            Some(p) => {
                proof {
                    lemma_next_psb(slice@, last + 1);
                    lemma_syncs_after_step(
                        slice@,
                        last as int,
                        p as int,
                        (MAX_SYNCPOINTS - count) as nat,
                    );
                    assert(found.add(seq![p as int]).add(
                        syncs_after(slice@, p as int, (MAX_SYNCPOINTS - count - 1) as nat),
                    ) =~= found.add(
                        seq![p as int].add(
                            syncs_after(slice@, p as int, (MAX_SYNCPOINTS - count - 1) as nat),
                        ),
                    ));
                    found = found.add(seq![p as int]);
                }
                count += 1;
                last = p;
            },
            None => {
                proof {
                    assert(next_psb(slice@, last + 1) is None);
                    assert(syncs_after(slice@, last as int, (MAX_SYNCPOINTS - count) as nat)
                        =~= Seq::<int>::empty());
                    assert(full =~= found);
                }
                done = true;
            },
        }
    }
    proof {
        if !done {
            assert(full =~= found);
        }
    }
    if count == 1 {
        return Err(ParseError::OneSync(start));
    }
    Ok(start..last)
}

} // verus!

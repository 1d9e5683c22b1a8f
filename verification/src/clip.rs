//! Per-column clipping state of the software renderer: the coalesced list
//! of screen-column ranges already covered by solid walls.

use vstd::prelude::*;

verus! {

/// Inclusive range of screen columns `first..=last`.
#[derive(Clone, Copy, Debug, Default, PartialEq, Eq)]
pub struct ClipRange {
    pub first: i32,
    pub last: i32,
}

/// Per-column vertical clip limits (ceiling and floor bands).
#[derive(Default)]
pub struct ClipBands {
    pub ceil: Vec<i16>,
    pub floor: Vec<i16>,
}

/// Column `x` lies in range `r`.
pub open spec fn in_range(r: ClipRange, x: int) -> bool {
    r.first <= x <= r.last
}

/// `lo <= x <= hi`.
pub open spec fn between(lo: int, hi: int, x: int) -> bool {
    lo <= x <= hi
}

/// Column `x` is covered by some range of `s`.
pub open spec fn covered(s: Seq<ClipRange>, x: int) -> bool {
    exists|k: int| 0 <= k < s.len() && #[trigger] in_range(s[k], x)
}

/// Ranges are non-empty, in increasing order, and more than `gap`
/// columns lie between the end of one range and the start of a later one.
pub open spec fn segs_apart(s: Seq<ClipRange>, gap: int) -> bool {
    &&& forall|k: int| 0 <= k < s.len() ==> (#[trigger] s[k]).first <= s[k].last
    &&& forall|a: int, b: int| 0 <= a < b < s.len() ==> (#[trigger] s[a]).last + gap < (#[trigger] s[b]).first
}

/// Ranges are non-empty, in increasing order, and do not overlap (they
/// may touch).
pub open spec fn segs_sorted(s: Seq<ClipRange>) -> bool {
    segs_apart(s, 0)
}

/// Ranges are non-empty, in increasing order, and neither overlap nor
/// touch (there is at least one uncovered column between two ranges).
pub open spec fn segs_wf(s: Seq<ClipRange>) -> bool {
    segs_apart(s, 1)
}

/// Reset the list to the two sentinels `[-w, -1]` and `[w, 2w]`
/// (`w = width as i32`) that keep insertions away from the list's ends.
pub fn init_solid_segs(solid_segs: &mut Vec<ClipRange>, width: usize)
    requires
        i32::MIN <= 2 * ((width as i32) as int) <= i32::MAX,
    ensures
        final(solid_segs)@ == seq![
            (ClipRange { first: (-((width as i32) as int)) as i32, last: -1i32 }),
            (ClipRange { first: width as i32, last: (2 * (width as i32)) as i32 }),
        ],
        (width as i32) >= 1 ==> segs_wf(final(solid_segs)@),
{
    let w = width as i32;
    solid_segs.clear();
    solid_segs.push(ClipRange { first: -w, last: -1 });
    solid_segs.push(ClipRange { first: w, last: w * 2 });
    assert(solid_segs@ =~= seq![
        ClipRange { first: (-((width as i32) as int)) as i32, last: -1i32 },
        ClipRange { first: width as i32, last: (2 * (width as i32)) as i32 },
    ]);
}

/// Index of the first range of `s`, from `k` on, that does not end before
/// column `first - 1`.
pub open spec fn skip_from(s: Seq<ClipRange>, first: int, k: int) -> int
    decreases s.len() - k,
{
    if 0 <= k < s.len() && s[k].last < first - 1 {
        skip_from(s, first, k + 1)
    } else {
        k
    }
}

/// Merging the ranges from `k` on into the growing range `nf..=nl` while
/// each next range starts no later than one past its end: the index where
/// the merging stops and the merged range's two ends.
pub open spec fn merge_run(s: Seq<ClipRange>, k: int, nf: int, nl: int) -> (int, int, int)
    decreases s.len() - k,
{
    if 0 <= k < s.len() && s[k].first <= nl + 1 {
        merge_run(
            s,
            k + 1,
            if s[k].first < nf { s[k].first as int } else { nf },
            if s[k].last > nl { s[k].last as int } else { nl },
        )
    } else {
        (k, nf, nl)
    }
}

/// The list after marking columns `first..=last` in `s`: the ranges that
/// end before `first - 1` stay; if the next range holds `first..=last` the
/// list is unchanged; otherwise that range and every following one that
/// starts at most one past the growing range's end are replaced by one
/// range spanning all of them and `first..=last`.
pub open spec fn seg_added(s: Seq<ClipRange>, first: i32, last: i32) -> Seq<ClipRange> {
    let i = skip_from(s, first as int, 0);
    if i < s.len() && first >= s[i].first && last <= s[i].last {
        s
    } else {
        let (j, nf, nl) = merge_run(s, i, first as int, last as int);
        s.take(i) + seq![ClipRange { first: nf as i32, last: nl as i32 }] + s.skip(j)
    }
}

/// Mark columns `first..=last` as covered: ranges that overlap or touch
/// the new one are merged with it into a single range, kept in order.
/// When the new range lies inside an existing one nothing changes.
#[verifier::spinoff_prover]
pub fn add_solid_seg(solid_segs: &mut Vec<ClipRange>, first: i32, last: i32)
    ensures
        segs_sorted(old(solid_segs)@) && first <= last ==> {
            &&& segs_sorted(final(solid_segs)@)
            &&& forall|x: int| covered(final(solid_segs)@, x) <==> (covered(old(solid_segs)@, x) || first <= x <= last)
        },
        segs_wf(old(solid_segs)@) && first <= last ==> segs_wf(final(solid_segs)@),
        final(solid_segs)@ == seg_added(old(solid_segs)@, first, last),
        segs_wf(old(solid_segs)@) && first <= last && (exists|k: int|
            0 <= k < old(solid_segs)@.len() && #[trigger] in_range(old(solid_segs)@[k], first as int) && last
                <= old(solid_segs)@[k].last) ==> final(solid_segs)@ == old(solid_segs)@,
{
    let ghost s0 = solid_segs@;
    let ghost gap: int = if segs_wf(s0) { 1 } else { 0 };
    let mut i: usize = 0;
    // 1) skip all ranges that end before ours minus one
    while i < solid_segs.len() && (solid_segs[i].last as i64) < (first as i64) - 1
        invariant
            solid_segs@ == s0,
            i <= s0.len(),
            forall|k: int| 0 <= k < i ==> (#[trigger] s0[k]).last + 1 < first,
            skip_from(s0, first as int, 0) == skip_from(s0, first as int, i as int),
        decreases s0.len() - i,
    {
        i += 1;
    }
    let ghost i0 = i as int;
    assert(skip_from(s0, first as int, 0) == i0);
    proof {
        if segs_wf(s0) && first <= last && exists|k: int|
            0 <= k < s0.len() && #[trigger] in_range(s0[k], first as int) && last <= s0[k].last {
            let k = choose|k: int| 0 <= k < s0.len() && #[trigger] in_range(s0[k], first as int) && last <= s0[k].last;
            lemma_skip_to_holder(s0, first as int, k, 0);
        }
    }
    // the new range is swallowed by an existing one
    if i < solid_segs.len() && first >= solid_segs[i].first && last <= solid_segs[i].last {
        proof {
            assert forall|x: int| covered(solid_segs@, x) <==> (covered(s0, x) || first <= x <= last) by {
                if first <= x <= last {
                    assert(in_range(s0[i as int], x));
                }
            }
        }
        return;
    }
    // 2) merge every range that overlaps or touches the growing one
    let ghost good = segs_apart(s0, gap) && first <= last;
    let mut new_first = first;
    let mut new_last = last;
    let ghost mut j: int = i as int;
    while i < solid_segs.len() && (solid_segs[i].first as i64) <= (new_last as i64) + 1
        invariant
            gap == (if segs_wf(s0) { 1int } else { 0int }),
            good == (segs_apart(s0, gap) && first <= last),
            i == i0,
            skip_from(s0, first as int, 0) == i0,
            !(i0 < s0.len() && first >= s0[i0].first && last <= s0[i0].last),
            merge_run(s0, i0, first as int, last as int) == merge_run(s0, j, new_first as int, new_last as int),
            i <= j <= s0.len(),
            solid_segs@ == s0.take(i as int) + s0.skip(j),
            forall|k: int| 0 <= k < i ==> (#[trigger] s0[k]).last + 1 < first,
            i < s0.len() ==> s0[i as int].last + 1 >= first,
            new_first <= first,
            new_last >= last,
            j == i ==> new_first == first && new_last == last,
            good && j > i ==> new_first == first || new_first == s0[i as int].first,
            j > i ==> new_last >= s0[j - 1].last,
            good ==> forall|x: int|
                #[trigger] between(new_first as int, new_last as int, x) <==> (first <= x <= last || exists|k: int|
                    i <= k < j && #[trigger] in_range(s0[k], x)),
        decreases s0.len() - j,
    {
        let ghost nf = new_first as int;
        let ghost nl = new_last as int;
        assert(solid_segs@[i as int] == s0[j]);
        let r = solid_segs.remove(i);
        if r.first < new_first {
            new_first = r.first;
        }
        if r.last > new_last {
            new_last = r.last;
        }
        proof {
            assert(solid_segs@ =~= s0.take(i as int) + s0.skip(j + 1));
            if good {
                if j > i {
                    assert(s0[i as int].last + gap < s0[j].first);
                    assert(new_first == first || new_first == s0[i as int].first);
                }
                assert(r.last >= nf - 1);
                assert forall|x: int|
                    #[trigger] between(new_first as int, new_last as int, x) <==> (first <= x <= last || exists|k: int|
                        i <= k < j + 1 && #[trigger] in_range(s0[k], x)) by {
                    if between(new_first as int, new_last as int, x) {
                        if between(nf, nl, x) {
                        } else {
                            assert(in_range(s0[j], x));
                        }
                    }
                    if exists|k: int| i <= k < j + 1 && #[trigger] in_range(s0[k], x) {
                        let k = choose|k: int| i <= k < j + 1 && #[trigger] in_range(s0[k], x);
                        if k < j {
                            assert(between(nf, nl, x));
                        }
                    }
                    if first <= x <= last {
                        assert(between(nf, nl, x));
                    }
                }
            }
            j = j + 1;
        }
    }
    // 3) insert the coalesced range in its sorted place
    let mid = ClipRange { first: new_first, last: new_last };
    solid_segs.insert(i, mid);
    proof {
        let f = solid_segs@;
        assert(f =~= s0.take(i as int) + seq![mid] + s0.skip(j));
        if segs_sorted(s0) && first <= last {
            if gap == 1 {
                assert(segs_wf(s0));
            } else {
                assert(segs_apart(s0, gap));
            }
            assert(good);
            lemma_splice(s0, i as int, j, first as int, last as int, mid, gap);
            assert(segs_apart(f, gap));
            if gap == 1 {
                lemma_apart_weaken(f);
            }
            assert(segs_sorted(f));
            assert forall|x: int| covered(f, x) <==> (covered(s0, x) || first <= x <= last) by {
                assert(covered(s0.take(i as int) + seq![mid] + s0.skip(j), x) <==> (covered(s0, x) || first <= x <= last));
            }
        }
    }
}

/// In a list whose ranges are more than one column apart, the ranges
/// before the one holding column `first` all end before `first - 1`, so
/// the skip stops at that range.
proof fn lemma_skip_to_holder(s: Seq<ClipRange>, first: int, k: int, m: int)
    requires
        segs_wf(s),
        0 <= m <= k < s.len(),
        in_range(s[k], first),
    ensures
        skip_from(s, first, m) == k,
    decreases k - m,
{
    if m < k {
        assert(s[m].last + 1 < s[k].first);
        lemma_skip_to_holder(s, first, k, m + 1);
    }
}

/// Replacing the ranges `s[i..j]` by one range `mid` that covers exactly
/// them and `first..=last` keeps the list ordered and adds exactly the
/// columns `first..=last` to what it covers.
proof fn lemma_splice(s0: Seq<ClipRange>, i: int, j: int, first: int, last: int, mid: ClipRange, gap: int)
    requires
        0 <= gap <= 1,
        segs_apart(s0, gap),
        first <= last,
        0 <= i <= j <= s0.len(),
        forall|k: int| 0 <= k < i ==> (#[trigger] s0[k]).last + 1 < first,
        mid.first <= first,
        mid.first == first || (j > i && mid.first == s0[i].first),
        mid.last >= last,
        j < s0.len() ==> s0[j].first > mid.last + 1,
        forall|x: int|
            #[trigger] between(mid.first as int, mid.last as int, x) <==> (first <= x <= last || exists|k: int|
                i <= k < j && #[trigger] in_range(s0[k], x)),
    ensures
        segs_apart(s0.take(i) + seq![mid] + s0.skip(j), gap),
        forall|x: int|
            covered(s0.take(i) + seq![mid] + s0.skip(j), x) <==> (covered(s0, x) || first <= x <= last),
{
    let f = s0.take(i) + seq![mid] + s0.skip(j);
    let new_first = mid.first;
    let new_last = mid.last;
    assert forall|k: int| 0 <= k < f.len() implies f[k] == (if k < i {
        s0[k]
    } else if k == i {
        mid
    } else {
        s0[k - i - 1 + j]
    }) by {}
    assert forall|k: int| 0 <= k < f.len() implies (#[trigger] f[k]).first <= f[k].last by {
        if k < i {
            assert(f[k] == s0[k]);
        } else if k > i {
            assert(f[k] == s0[k - i - 1 + j]);
        }
    }
    assert forall|a: int, b: int| 0 <= a < b < f.len() implies (#[trigger] f[a]).last + gap < (#[trigger] f[b]).first by {
        if b < i {
            assert(f[a] == s0[a] && f[b] == s0[b]);
        } else if b == i {
            assert(f[a] == s0[a] && f[b] == mid);
            assert(s0[a].last + 1 < first);
            if j > i && mid.first != first {
                assert(s0[a].last + gap < s0[i].first);
            }
        } else if a < i {
            assert(f[a] == s0[a] && f[b] == s0[b - i - 1 + j]);
            assert(s0[a].last + gap < s0[b - i - 1 + j].first);
        } else if a == i {
            assert(f[a] == mid && f[b] == s0[b - i - 1 + j]);
            assert(s0[j].first > new_last + 1);
            assert(s0[j].first <= s0[j].last);
            if b - i - 1 + j > j {
                assert(s0[j].last + gap < s0[b - i - 1 + j].first);
            }
        } else {
            assert(f[a] == s0[a - i - 1 + j] && f[b] == s0[b - i - 1 + j]);
        }
    }
    assert forall|x: int| covered(f, x) <==> (covered(s0, x) || first <= x <= last) by {
        if covered(f, x) {
            let k = choose|k: int| 0 <= k < f.len() && #[trigger] in_range(f[k], x);
            if k < i {
                assert(in_range(s0[k], x));
            } else if k == i {
                assert(between(new_first as int, new_last as int, x));
            } else {
                assert(in_range(s0[k - i - 1 + j], x));
            }
        }
        if covered(s0, x) {
            let k = choose|k: int| 0 <= k < s0.len() && #[trigger] in_range(s0[k], x);
            if k < i {
                assert(in_range(f[k], x));
            } else if k < j {
                assert(between(new_first as int, new_last as int, x));
                assert(in_range(f[i], x));
            } else {
                assert(in_range(f[k + i + 1 - j], x));
            }
        }
        if first <= x <= last {
            assert(between(new_first as int, new_last as int, x));
            assert(in_range(f[i], x));
        }
    }
}

/// A list whose ranges are more than one column apart is also sorted.
proof fn lemma_apart_weaken(s: Seq<ClipRange>)
    requires
        segs_apart(s, 1),
    ensures
        segs_apart(s, 0),
{
    assert forall|a: int, b: int| 0 <= a < b < s.len() implies (#[trigger] s[a]).last + 0 < (#[trigger] s[b]).first by {
        assert(s[a].last + 1 < s[b].first);
    }
}

} // verus!

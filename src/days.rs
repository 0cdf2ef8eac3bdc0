use vstd::prelude::*;
use chrono::TimeZone;
use crate::catalog::Media;
use crate::mapper::{MapOp, MapOpType};

verus! {

/// Seconds in a day.
pub const SECS_PER_DAY: i64 = 86400;

/// The greatest distance from 1970-01-01, in seconds, at which a creation
/// time still has a calendar date here.
pub const MAX_DATED_SECS: i64 = 7_776_000_000_000;

/// The greatest distance from 1970-01-01, in days, of a day that has a date
/// here.
pub const MAX_DATED_DAYS: i64 = 90_000_000;

/// The UTC calendar day on which a time lies, counted in days from 1970-01-01.
pub open spec fn day_of(secs: i64) -> int {
    secs as int / SECS_PER_DAY as int
}

/// Whether a creation time lies within the years that have a date here.
pub open spec fn dated(secs: i64) -> bool {
    -MAX_DATED_SECS <= secs <= MAX_DATED_SECS
}

/// The videos shot on one UTC calendar day, as the half-open range of ids
/// `[start, end)` that covers them tightly.
#[derive(Debug, Clone, Copy, PartialEq, Eq, Structural)]
pub struct DayGroup {
    /// The day, counted from 1970-01-01.
    pub day: i64,
    pub start: u32,
    pub end: u32,
}

/// Whether `m` was shot on day `d`.
pub open spec fn on_day(m: Media, d: int) -> bool {
    day_of(m.created_at) == d
}

/// Whether `g` covers exactly the first `n` items of `media` shot on `g.day`:
/// its start is their least id and its end one past their greatest.
pub open spec fn covers(media: Seq<Media>, n: int, g: DayGroup) -> bool {
    &&& exists|i: int| 0 <= i < n && #[trigger] on_day(media[i], g.day as int) && media[i].id == g.start
    &&& exists|i: int| 0 <= i < n && #[trigger] on_day(media[i], g.day as int) && media[i].id + 1 == g.end
    &&& forall|i: int|
        0 <= i < n && #[trigger] on_day(media[i], g.day as int) ==> g.start <= media[i].id < g.end
}

/// Whether one of `groups` is for day `d`.
pub open spec fn day_listed(groups: Seq<DayGroup>, d: int) -> bool {
    exists|j: int| 0 <= j < groups.len() && #[trigger] groups[j].day == d
}

/// Whether `groups` are the day groups of the first `n` items of `media`: one
/// for each day on which one of them was shot, in ascending order of day.
#[verifier::opaque]
pub open spec fn day_groups_upto(media: Seq<Media>, n: int, groups: Seq<DayGroup>) -> bool {
    &&& forall|i: int, j: int|
        0 <= i < j < groups.len() ==> #[trigger] groups[i].day < #[trigger] groups[j].day
    &&& forall|j: int| 0 <= j < groups.len() ==> covers(media, n, #[trigger] groups[j])
    &&& forall|i: int| 0 <= i < n ==> day_listed(groups, #[trigger] day_of(media[i].created_at))
}

/// Whether `groups` are the day groups of all of `media`.
pub open spec fn day_groups_of(media: Seq<Media>, groups: Seq<DayGroup>) -> bool {
    day_groups_upto(media, media.len() as int, groups)
}

/// The day on which a creation time lies.
pub fn day_number(secs: i64) -> (d: i64)
    ensures
        d as int == day_of(secs),
{
    if secs >= 0 {
        secs / SECS_PER_DAY
    } else {
        let back = -(secs + 1);
        let q = back / SECS_PER_DAY;
        proof {
            let b = back as int;
            let qq = q as int;
            assert(b == qq * 86400 + b % 86400) by (nonlinear_arith)
                requires qq == b / 86400, b >= 0;
            assert(0 <= b % 86400 < 86400) by (nonlinear_arith)
                requires b >= 0;
            let s = secs as int;
            assert(s == (-qq - 1) * 86400 + (86399 - b % 86400)) by (nonlinear_arith)
                requires b == -s - 1, b == qq * 86400 + b % 86400;
            vstd::arithmetic::div_mod::lemma_fundamental_div_mod_converse(s, 86400, -qq - 1, 86399 - b % 86400);
        }
        -q - 1
    }
}

proof fn lemma_covers_extend(media: Seq<Media>, k: int, g: DayGroup)
    requires
        0 <= k < media.len(),
        covers(media, k, g),
        !on_day(media[k], g.day as int),
    ensures
        covers(media, k + 1, g),
{
    let w1 = choose|i: int| 0 <= i < k && #[trigger] on_day(media[i], g.day as int) && media[i].id == g.start;
    let w2 = choose|i: int| 0 <= i < k && #[trigger] on_day(media[i], g.day as int) && media[i].id + 1 == g.end;
    assert(on_day(media[w1], g.day as int) && media[w1].id == g.start);
    assert(on_day(media[w2], g.day as int) && media[w2].id + 1 == g.end);
}

proof fn lemma_widen_group(media: Seq<Media>, k: int, groups: Seq<DayGroup>, p: int, ng: DayGroup)
    requires
        0 <= k < media.len(),
        day_groups_upto(media, k, groups),
        0 <= p < groups.len(),
        groups[p].day == day_of(media[k].created_at),
        ng.day == groups[p].day,
        ng.start == (if media[k].id < groups[p].start { media[k].id } else { groups[p].start }),
        ng.end as int == (if media[k].id >= groups[p].end { media[k].id + 1 } else {
            groups[p].end as int
        }),
    ensures
        day_groups_upto(media, k + 1, groups.update(p, ng)),
{
    reveal(day_groups_upto);
    let g = groups[p];
    let d = g.day as int;
    let ngs = groups.update(p, ng);
    assert forall|j: int| 0 <= j < ngs.len() implies covers(media, k + 1, #[trigger] ngs[j]) by {
        assert(covers(media, k, groups[j]));
        if j == p {
            assert(on_day(media[k], ng.day as int));
            if media[k].id < g.start {
                assert(media[k].id == ng.start);
            } else {
                let w = choose|i: int|
                    0 <= i < k && #[trigger] on_day(media[i], g.day as int) && media[i].id
                        == g.start;
                assert(on_day(media[w], ng.day as int) && media[w].id == ng.start);
            }
            if media[k].id >= g.end {
                assert(media[k].id + 1 == ng.end);
            } else {
                let w = choose|i: int|
                    0 <= i < k && #[trigger] on_day(media[i], g.day as int) && media[i].id
                        + 1 == g.end;
                assert(on_day(media[w], ng.day as int) && media[w].id + 1 == ng.end);
            }
            assert forall|i: int| 0 <= i < k + 1 && #[trigger] on_day(media[i], ng.day as int)
                implies ng.start <= media[i].id < ng.end by {
                if i < k {
                    assert(on_day(media[i], g.day as int));
                }
            }
        } else {
            assert(groups[j].day != d) by {
                if j > p {
                    assert(groups[p].day < groups[j].day);
                } else {
                    assert(groups[j].day < groups[p].day);
                }
            }
            lemma_covers_extend(media, k, groups[j]);
        }
    }
    assert forall|i: int| 0 <= i < k + 1 implies day_listed(ngs, #[trigger] day_of(media[i].created_at)) by {
        if i == k {
            assert(ngs[p].day == day_of(media[i].created_at));
        } else {
            assert(day_listed(groups, day_of(media[i].created_at)));
            let j = choose|j: int| 0 <= j < groups.len() && #[trigger] groups[j].day == day_of(media[i].created_at);
            assert(ngs[j].day == groups[j].day);
        }
    }
    assert forall|a: int, b: int| 0 <= a < b < ngs.len() implies #[trigger] ngs[a].day
        < #[trigger] ngs[b].day by {
        assert(groups[a].day < groups[b].day);
    }
}

proof fn lemma_new_group(media: Seq<Media>, k: int, groups: Seq<DayGroup>, p: int, ng: DayGroup)
    requires
        0 <= k < media.len(),
        day_groups_upto(media, k, groups),
        0 <= p <= groups.len(),
        forall|j: int| 0 <= j < p ==> #[trigger] groups[j].day < ng.day,
        p < groups.len() ==> groups[p].day > ng.day,
        ng.day == day_of(media[k].created_at),
        ng.start == media[k].id,
        ng.end == media[k].id + 1,
    ensures
        day_groups_upto(media, k + 1, groups.insert(p, ng)),
{
    reveal(day_groups_upto);
    let d = ng.day as int;
    let ngs = groups.insert(p, ng);
    assert forall|j: int| p <= j < groups.len() implies groups[j].day > d by {
        if j > p {
            assert(groups[p].day < groups[j].day);
        }
    }
    assert forall|j: int| 0 <= j < ngs.len() implies covers(media, k + 1, #[trigger] ngs[j]) by {
        if j == p {
            assert forall|i: int|
                0 <= i < k + 1 && #[trigger] on_day(media[i], ng.day as int) implies ng.start
                <= media[i].id < ng.end by {
                if i < k {
                    assert(day_listed(groups, day_of(media[i].created_at)));
                    let jj = choose|jj: int| 0 <= jj < groups.len() && #[trigger] groups[jj].day == day_of(media[i].created_at);
                    assert(groups[jj].day == d);
                    assert(false);
                }
            }
            assert(on_day(media[k], ng.day as int));
            assert(media[k].id == ng.start);
            assert(media[k].id + 1 == ng.end);
        } else {
            let o = if j < p { j } else { j - 1 };
            assert(ngs[j] == groups[o]);
            assert(covers(media, k, groups[o]));
            assert(groups[o].day != d);
            lemma_covers_extend(media, k, groups[o]);
        }
    }
    assert forall|i: int| 0 <= i < k + 1 implies day_listed(ngs, #[trigger] day_of(media[i].created_at)) by {
        if i == k {
            assert(ngs[p].day == day_of(media[i].created_at));
        } else {
            assert(day_listed(groups, day_of(media[i].created_at)));
            let j = choose|j: int| 0 <= j < groups.len() && #[trigger] groups[j].day == day_of(media[i].created_at);
            if j < p {
                assert(ngs[j].day == groups[j].day);
            } else {
                assert(ngs[j + 1].day == groups[j].day);
            }
        }
    }
    assert forall|a: int, b: int| 0 <= a < b < ngs.len() implies #[trigger] ngs[a].day
        < #[trigger] ngs[b].day by {
        let oa = if a < p { a } else { a - 1 };
        let ob = if b < p { b } else { b - 1 };
        if a != p && b != p {
            assert(groups[oa].day < groups[ob].day);
        }
    }
}

/// Whether the days of `groups` ascend strictly.
pub open spec fn days_ascend(groups: Seq<DayGroup>) -> bool {
    forall|i: int, j: int| 0 <= i < j < groups.len() ==> #[trigger] groups[i].day < #[trigger] groups[j].day
}

proof fn lemma_same_days(a: Seq<DayGroup>, b: Seq<DayGroup>)
    requires
        days_ascend(a),
        days_ascend(b),
        forall|i: int| 0 <= i < a.len() ==> day_listed(b, #[trigger] a[i].day as int),
        forall|i: int| 0 <= i < b.len() ==> day_listed(a, #[trigger] b[i].day as int),
    ensures
        a.len() == b.len(),
        forall|i: int| 0 <= i < a.len() ==> #[trigger] a[i].day == b[i].day,
    decreases a.len(),
{
    if a.len() == 0 {
        if b.len() > 0 {
            assert(day_listed(a, b[0].day as int));
        }
    } else if b.len() == 0 {
        assert(day_listed(b, a[0].day as int));
    } else {
        assert(day_listed(b, a[0].day as int));
        assert(day_listed(a, b[0].day as int));
        let jb = choose|j: int| 0 <= j < b.len() && #[trigger] b[j].day == a[0].day;
        let ja = choose|j: int| 0 <= j < a.len() && #[trigger] a[j].day == b[0].day;
        if jb > 0 {
            assert(b[0].day < b[jb].day);
        }
        if ja > 0 {
            assert(a[0].day < a[ja].day);
        }
        assert(a[0].day == b[0].day);
        let a1 = a.drop_first();
        let b1 = b.drop_first();
        assert forall|i: int| 0 <= i < a1.len() implies day_listed(b1, #[trigger] a1[i].day as int) by {
            assert(a[0].day < a[i + 1].day);
            assert(day_listed(b, a[i + 1].day as int));
            let j = choose|j: int| 0 <= j < b.len() && #[trigger] b[j].day == a[i + 1].day;
            assert(j != 0);
            assert(b1[j - 1].day == a1[i].day);
        }
        assert forall|i: int| 0 <= i < b1.len() implies day_listed(a1, #[trigger] b1[i].day as int) by {
            assert(b[0].day < b[i + 1].day);
            assert(day_listed(a, b[i + 1].day as int));
            let j = choose|j: int| 0 <= j < a.len() && #[trigger] a[j].day == b[i + 1].day;
            assert(j != 0);
            assert(a1[j - 1].day == b1[i].day);
        }
        lemma_same_days(a1, b1);
        assert forall|i: int| 0 <= i < a.len() implies #[trigger] a[i].day == b[i].day by {
            if i > 0 {
                assert(a1[i - 1].day == b1[i - 1].day);
            }
        }
    }
}

proof fn lemma_listed_of_covered(media: Seq<Media>, a: Seq<DayGroup>, b: Seq<DayGroup>)
    requires
        day_groups_of(media, a),
        day_groups_of(media, b),
    ensures
        forall|i: int| 0 <= i < a.len() ==> day_listed(b, #[trigger] a[i].day as int),
{
    reveal(day_groups_upto);
    assert forall|i: int| 0 <= i < a.len() implies day_listed(b, #[trigger] a[i].day as int) by {
        assert(covers(media, media.len() as int, a[i]));
        let w = choose|w: int|
            0 <= w < media.len() && #[trigger] on_day(media[w], a[i].day as int) && media[w].id
                == a[i].start;
        assert(day_listed(b, day_of(media[w].created_at)));
    }
}

/// The day groups of a catalog are determined by it: two lists that both
/// are its day groups are the same list.
pub proof fn lemma_day_groups_unique(media: Seq<Media>, a: Seq<DayGroup>, b: Seq<DayGroup>)
    requires
        day_groups_of(media, a),
        day_groups_of(media, b),
    ensures
        a == b,
{
    lemma_listed_of_covered(media, a, b);
    lemma_listed_of_covered(media, b, a);
    reveal(day_groups_upto);
    lemma_same_days(a, b);
    let n = media.len() as int;
    assert forall|i: int| 0 <= i < a.len() implies #[trigger] a[i] == b[i] by {
        let (x, y) = (a[i], b[i]);
        assert(covers(media, n, x));
        assert(covers(media, n, y));
        let ws = choose|w: int| 0 <= w < n && #[trigger] on_day(media[w], x.day as int) && media[w].id == x.start;
        let we = choose|w: int| 0 <= w < n && #[trigger] on_day(media[w], x.day as int) && media[w].id + 1 == x.end;
        let vs = choose|w: int| 0 <= w < n && #[trigger] on_day(media[w], y.day as int) && media[w].id == y.start;
        let ve = choose|w: int| 0 <= w < n && #[trigger] on_day(media[w], y.day as int) && media[w].id + 1 == y.end;
        assert(on_day(media[ws], y.day as int));
        assert(on_day(media[we], y.day as int));
        assert(on_day(media[vs], x.day as int));
        assert(on_day(media[ve], x.day as int));
    }
    assert(a =~= b);
}

/// The day groups of a catalog.
pub open spec fn day_groups_spec(media: Seq<Media>) -> Seq<DayGroup> {
    choose|g: Seq<DayGroup>| day_groups_of(media, g)
}

/// The days of the groups of a catalog whose times all have a date have a
/// date too.
pub proof fn lemma_groups_dated(media: Seq<Media>, groups: Seq<DayGroup>)
    requires
        day_groups_of(media, groups),
        forall|i: int| 0 <= i < media.len() ==> dated(#[trigger] media[i].created_at),
    ensures
        forall|j: int| 0 <= j < groups.len() ==> dated_day(#[trigger] groups[j].day as int),
{
    reveal(day_groups_upto);
    assert forall|j: int| 0 <= j < groups.len() implies dated_day(#[trigger] groups[j].day as int) by {
        assert(covers(media, media.len() as int, groups[j]));
        let w = choose|w: int|
            0 <= w < media.len() && #[trigger] on_day(media[w], groups[j].day as int) && media[w].id
                == groups[j].start;
        assert(dated(media[w].created_at));
        let t = media[w].created_at as int;
        assert(-MAX_DATED_DAYS <= t / 86400 <= MAX_DATED_DAYS) by (nonlinear_arith)
            requires -7_776_000_000_000 <= t <= 7_776_000_000_000;
    }
}

/// The day groups of the videos: one for each UTC calendar day on which one
/// was shot, in ascending order of day, each covering that day's ids from the
/// least to one past the greatest.
pub fn day_groups(media: &Vec<Media>) -> (r: Vec<DayGroup>)
    requires
        forall|i: int| 0 <= i < media@.len() ==> #[trigger] media@[i].id < u32::MAX,
    ensures
        day_groups_of(media@, r@),
        r@ == day_groups_spec(media@),
{
    let mut groups: Vec<DayGroup> = Vec::new();
    let mut k: usize = 0;
    proof {
        reveal(day_groups_upto);
    }
    while k < media.len()
        invariant
            k <= media@.len(),
            forall|i: int| 0 <= i < media@.len() ==> #[trigger] media@[i].id < u32::MAX,
            day_groups_upto(media@, k as int, groups@),
        decreases media@.len() - k,
    {
        let m = &media[k];
        let d = day_number(m.created_at);
        let mut p: usize = 0;
        while p < groups.len() && groups[p].day < d
            invariant
                p <= groups@.len(),
                forall|j: int| 0 <= j < p ==> #[trigger] groups@[j].day < d,
            decreases groups@.len() - p,
        {
            p += 1;
        }
        let ghost old_groups = groups@;
        proof {
            reveal(day_groups_upto);
        }
        if p < groups.len() && groups[p].day == d {
            let g = groups[p];
            let start = if m.id < g.start { m.id } else { g.start };
            let end = if m.id >= g.end { m.id + 1 } else { g.end };
            let ng = DayGroup { day: d, start, end };
            proof {
                lemma_widen_group(media@, k as int, old_groups, p as int, ng);
            }
            groups.set(p, ng);
        } else {
            let ng = DayGroup { day: d, start: m.id, end: m.id + 1 };
            proof {
                lemma_new_group(media@, k as int, old_groups, p as int, ng);
            }
            groups.insert(p, ng);
        }
        k += 1;
    }
    proof {
        assert(day_groups_of(media@, groups@));
        lemma_day_groups_unique(media@, groups@, day_groups_spec(media@));
    }
    groups
}

/// The text of the UTC calendar date on which a time lies.
pub uninterp spec fn utc_date_text(secs: int) -> Seq<char>;

/// Relies on chrono's `TimeZone::timestamp_opt` for `Utc`, which gives a time
/// for every second within chrono's range of years, and on the `Display` of
/// the `Date<Utc>` taken from it: the text depends on the time alone.
#[verifier::external_body]
#[allow(deprecated)]
fn utc_date(secs: i64) -> (r: String)
    requires
        dated(secs),
    ensures
        r@ == utc_date_text(secs as int),
{
    chrono::Utc.timestamp_opt(secs, 0).unwrap().date().to_string()
}

/// Whether a day lies within the years that have a date here.
pub open spec fn dated_day(day: int) -> bool {
    -MAX_DATED_DAYS <= day <= MAX_DATED_DAYS
}

/// The text of a day's date.
pub open spec fn day_text(day: int) -> Seq<char> {
    utc_date_text(day * SECS_PER_DAY)
}

/// The text of the UTC calendar date of a day counted from 1970-01-01.
pub fn date_text(day: i64) -> (r: String)
    requires
        dated_day(day as int),
    ensures
        r@ == day_text(day as int),
{
    let secs = day * SECS_PER_DAY;
    utc_date(secs)
}

/// The name of the operation for a day group that the user labelled `label`.
pub open spec fn day_op_name(label: Seq<char>, day: int) -> Seq<char> {
    label + seq!['_'] + day_text(day)
}

/// Whether `op` copies the videos of group `g` under the name made of
/// `label` and the group's date.
pub open spec fn is_day_op(op: MapOp, g: DayGroup, label: Seq<char>) -> bool {
    &&& op.op_type == MapOpType::Copy
    &&& op.name@ == day_op_name(label, g.day as int)
    &&& op.start == g.start
    &&& op.end == g.end
}

/// One copy operation for each day group, named by the label given for it.
pub fn day_ops(groups: &Vec<DayGroup>, labels: &Vec<String>) -> (r: Vec<MapOp>)
    requires
        labels@.len() == groups@.len(),
        forall|j: int| 0 <= j < groups@.len() ==> dated_day(#[trigger] groups@[j].day as int),
    ensures
        r@.len() == groups@.len(),
        forall|j: int|
            0 <= j < groups@.len() ==> is_day_op(#[trigger] r@[j], groups@[j], labels@[j]@),
{
    let mut ops: Vec<MapOp> = Vec::new();
    let mut j: usize = 0;
    while j < groups.len()
        invariant
            j <= groups@.len(),
            labels@.len() == groups@.len(),
            forall|i: int| 0 <= i < groups@.len() ==> dated_day(#[trigger] groups@[i].day as int),
            ops@.len() == j,
            forall|i: int| 0 <= i < j ==> is_day_op(#[trigger] ops@[i], groups@[i], labels@[i]@),
        decreases groups@.len() - j,
    {
        let g = groups[j];
        proof {
            reveal_strlit("_");
            assert("_"@ =~= seq!['_']);
        }
        let mut name = labels[j].clone();
        name.append("_");
        let date = date_text(g.day);
        name.append(date.as_str());
        let op = MapOp { op_type: MapOpType::Copy, name, start: g.start, end: g.end };
        assert(is_day_op(op, groups@[j as int], labels@[j as int]@));
        ops.push(op);
        j += 1;
    }
    ops
}

/// Videos shot on exactly two UTC calendar days give exactly two day groups,
/// the earlier day first; each covers its day's ids from the least to one
/// past the greatest.
pub proof fn lemma_two_days(media: Seq<Media>, groups: Seq<DayGroup>, d1: int, d2: int)
    requires
        day_groups_of(media, groups),
        d1 < d2,
        forall|i: int| 0 <= i < media.len() ==> on_day(#[trigger] media[i], d1) || on_day(media[i], d2),
        exists|i: int| 0 <= i < media.len() && #[trigger] on_day(media[i], d1),
        exists|i: int| 0 <= i < media.len() && #[trigger] on_day(media[i], d2),
    ensures
        groups.len() == 2,
        groups[0].day == d1,
        groups[1].day == d2,
        covers(media, media.len() as int, groups[0]),
        covers(media, media.len() as int, groups[1]),
{
    reveal(day_groups_upto);
    let n = media.len() as int;
    let i1 = choose|i: int| 0 <= i < media.len() && #[trigger] on_day(media[i], d1);
    let i2 = choose|i: int| 0 <= i < media.len() && #[trigger] on_day(media[i], d2);
    assert(day_listed(groups, day_of(media[i1].created_at)));
    assert(day_listed(groups, day_of(media[i2].created_at)));
    let j1 = choose|j: int| 0 <= j < groups.len() && #[trigger] groups[j].day == d1;
    let j2 = choose|j: int| 0 <= j < groups.len() && #[trigger] groups[j].day == d2;
    assert forall|j: int| 0 <= j < groups.len() implies #[trigger] groups[j].day == d1 || groups[j].day == d2 by {
        assert(covers(media, n, groups[j]));
        let w = choose|w: int|
            0 <= w < n && #[trigger] on_day(media[w], groups[j].day as int) && media[w].id
                == groups[j].start;
        assert(on_day(media[w], d1) || on_day(media[w], d2));
    }
    if j2 < j1 {
        assert(groups[j2].day < groups[j1].day);
    }
    assert(j1 < j2);
    if groups.len() > 2 {
        let x = if j1 > 0 { 0 } else if j2 > 1 { 1 } else { 2 };
        assert(groups[x].day == d1 || groups[x].day == d2);
        if x < j1 {
            assert(groups[x].day < groups[j1].day);
        } else if x > j1 && x < j2 {
            assert(groups[j1].day < groups[x].day);
            assert(groups[x].day < groups[j2].day);
        } else {
            assert(groups[j2].day < groups[x].day);
        }
    }
    assert(j1 == 0 && j2 == 1);
}

} // verus!

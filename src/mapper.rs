use vstd::prelude::*;
use crate::error::{Errors, OpValidationResult};
use crate::catalog::{Media, ScannedFile, build_catalog, media_items, sorted_by_id};
use crate::days::{DayGroup, day_groups, day_groups_spec, day_groups_of, day_ops, is_day_op, dated};
use crate::util::{join, joined};

verus! {

/// What an operation does with the videos in its range.
#[derive(Debug, Clone, Copy, PartialEq, Eq, Structural)]
pub enum MapOpType {
    Copy,
}

impl Default for MapOpType {
    fn default() -> (r: Self)
        ensures
            r == MapOpType::Copy,
    {
        MapOpType::Copy
    }
}

/// A named instruction to act on every video whose id lies in `[start, end)`.
#[derive(Debug, Clone)]
pub struct MapOp {
    pub op_type: MapOpType,
    pub name: String,
    pub start: u32,
    pub end: u32,
}

impl PartialEq for MapOp {
    fn eq(&self, o: &MapOp) -> (r: bool) {
        self.op_type == o.op_type && self.name == o.name && self.start == o.start && self.end
            == o.end
    }
}

impl vstd::std_specs::cmp::PartialEqSpecImpl for MapOp {
    open spec fn obeys_eq_spec() -> bool {
        true
    }

    open spec fn eq_spec(&self, o: &MapOp) -> bool {
        self.op_type == o.op_type && self.name@ == o.name@ && self.start == o.start && self.end
            == o.end
    }
}

impl MapOp {
    pub fn new(op_type: MapOpType, name: String, start: u32, end: u32) -> (r: MapOp)
        ensures
            r == (MapOp { op_type, name, start, end }),
    {
        MapOp { op_type, name, start, end }
    }

    /// A copy of this operation, field for field.
    pub fn copied(&self) -> (r: MapOp)
        ensures
            r == *self,
    {
        MapOp { op_type: self.op_type, name: self.name.clone(), start: self.start, end: self.end }
    }
}

/// Whether two operations are the same, field for field.
pub open spec fn same_op(a: MapOp, b: MapOp) -> bool {
    a.op_type == b.op_type && a.name@ == b.name@ && a.start == b.start && a.end == b.end
}

/// Whether the ranges of two operations overlap. Two ranges that start at the
/// same id are never taken to overlap.
pub open spec fn overlaps(a: MapOp, b: MapOp) -> bool {
    (a.start > b.start && b.end > a.start) || (a.start < b.start && a.end > b.start)
}

/// Whether the operations at `i` and `j` are distinct and overlap.
pub open spec fn conflict(ops: Seq<MapOp>, i: int, j: int) -> bool {
    0 <= i < ops.len() && 0 <= j < ops.len() && !same_op(ops[i], ops[j]) && overlaps(
        ops[i],
        ops[j],
    )
}

/// Whether some pair of operations conflicts.
pub open spec fn has_conflict(ops: Seq<MapOp>) -> bool {
    exists|i: int, j: int| conflict(ops, i, j)
}

/// Whether `(i, j)` is the first conflicting pair, in the order of a scan
/// whose outer index is `i` and inner index is `j`.
pub open spec fn first_conflict(ops: Seq<MapOp>, i: int, j: int) -> bool {
    &&& conflict(ops, i, j)
    &&& forall|k: int, l: int| #[trigger] conflict(ops, k, l) ==> i < k || (i == k && j <= l)
}

/// The verdict of checking `ops`.
pub open spec fn validation_of(ops: Seq<MapOp>, r: OpValidationResult) -> bool {
    match r {
        OpValidationResult::Empty => ops.len() == 0,
        OpValidationResult::Valid => ops.len() > 0 && !has_conflict(ops),
        OpValidationResult::OverlappingRange(a, b) => ops.len() > 0 && exists|i: int, j: int|
            first_conflict(ops, i, j) && a == ops[i] && b == ops[j],
    }
}

/// Checks a set of operations: `Empty` when there is none, else the first
/// pair of distinct operations whose ranges overlap, else `Valid`.
pub fn validate(ops: &Vec<MapOp>) -> (r: OpValidationResult)
    ensures
        validation_of(ops@, r),
{
    if ops.len() == 0 {
        return OpValidationResult::Empty;
    }
    let mut i: usize = 0;
    while i < ops.len()
        invariant
            0 <= i <= ops@.len(),
            forall|k: int, l: int| 0 <= k < i ==> !conflict(ops@, k, l),
        decreases ops@.len() - i,
    {
        let mut j: usize = 0;
        while j < ops.len()
            invariant
                0 <= i < ops@.len(),
                0 <= j <= ops@.len(),
                forall|k: int, l: int| 0 <= k < i ==> !conflict(ops@, k, l),
                forall|l: int| 0 <= l < j ==> !conflict(ops@, i as int, l),
            decreases ops@.len() - j,
        {
            let a = &ops[i];
            let b = &ops[j];
            if !(*a == *b) && ((a.start > b.start && b.end > a.start) || (a.start < b.start
                && a.end > b.start)) {
                let r = OpValidationResult::OverlappingRange(a.copied(), b.copied());
                assert(first_conflict(ops@, i as int, j as int));
                return r;
            }
            j += 1;
        }
        i += 1;
    }
    OpValidationResult::Valid
}

/// A set of one operation is valid, whatever the operation.
pub proof fn lemma_single_op_valid(op: MapOp)
    ensures
        validation_of(seq![op], OpValidationResult::Valid),
{
    let ops = seq![op];
    assert forall|i: int, j: int| !conflict(ops, i, j) by {
        if 0 <= i < 1 && 0 <= j < 1 {
            assert(same_op(ops[i], ops[j]));
        }
    }
}

/// Two operations that start at the same id are never reported as
/// overlapping: the verdict on the pair is `Valid`.
pub proof fn lemma_equal_starts_valid(a: MapOp, b: MapOp, r: OpValidationResult)
    requires
        a.start == b.start,
        validation_of(seq![a, b], r),
    ensures
        r == OpValidationResult::Valid,
{
    let ops = seq![a, b];
    assert forall|i: int, j: int| !conflict(ops, i, j) by {
        if 0 <= i < 2 && 0 <= j < 2 {
            assert(ops[i].start == ops[j].start);
        }
    }
}

/// The folder, under the root of the card, that holds the videos.
pub open spec fn content_parts() -> Seq<Seq<char>> {
    seq![seq!['D', 'C', 'I', 'M'], seq!['1', '0', '0', 'C', 'A', 'N', 'O', 'N']]
}

/// The name of a file that an operating system leaves in folders, which an
/// output folder may hold and still count as empty.
pub open spec fn marker_name() -> Seq<char> {
    seq!['.', 'd', 's', '_', 's', 't', 'o', 'r', 'e']
}

/// Whether `c` is `lower` or, for a lower-case ASCII letter, its capital.
pub open spec fn same_letter(c: char, lower: char) -> bool {
    c == lower || ('a' <= lower <= 'z' && c as int + 32 == lower as int)
}

/// Whether a file name is the marker name, ignoring ASCII case.
pub open spec fn is_marker_name(s: Seq<char>) -> bool {
    s.len() == marker_name().len() && forall|i: int|
        0 <= i < s.len() ==> same_letter(#[trigger] s[i], marker_name()[i])
}

/// Whether a file name is the marker name, ignoring ASCII case.
pub fn is_marker(name: &str) -> (r: bool)
    ensures
        r == is_marker_name(name@),
{
    let marker = ".ds_store";
    proof {
        reveal_strlit(".ds_store");
        assert(marker@ =~= marker_name());
    }
    let n = name.unicode_len();
    if n != 9 {
        return false;
    }
    let mut i: usize = 0;
    while i < 9
        invariant
            n == 9 == name@.len(),
            marker@ == marker_name(),
            i <= 9,
            forall|k: int| 0 <= k < i ==> same_letter(#[trigger] name@[k], marker_name()[k]),
        decreases 9 - i,
    {
        let c = name.get_char(i);
        let m = marker.get_char(i);
        let same = c == m || ('a' <= m && m <= 'z' && (c as u32) + 32 == (m as u32));
        if !same {
            return false;
        }
        i += 1;
    }
    true
}

/// What was found at the output folder before a run.
#[derive(Debug)]
pub enum OutputDir {
    /// It does not exist, and was not to be made.
    Missing,
    /// It did not exist, and making it failed.
    CreateFailed(std::io::ErrorKind),
    /// It exists (or was just made) and holds entries with these names.
    Listed(Vec<String>),
    /// Its entries could not be read.
    ListFailed(std::io::ErrorKind),
}

/// Whether every entry name is the marker name.
pub open spec fn only_markers(names: Seq<String>) -> bool {
    forall|i: int| 0 <= i < names.len() ==> is_marker_name(#[trigger] names[i]@)
}

fn all_markers(names: &Vec<String>) -> (r: bool)
    ensures
        r == only_markers(names@),
{
    let mut i: usize = 0;
    while i < names.len()
        invariant
            i <= names@.len(),
            forall|k: int| 0 <= k < i ==> is_marker_name(#[trigger] names@[k]@),
        decreases names@.len() - i,
    {
        if !is_marker(names[i].as_str()) {
            return false;
        }
        i += 1;
    }
    true
}

/// The file copies of one operation: for each video of `media` in its range,
/// in catalog order, the file under `root` and its place under `dir`.
pub open spec fn copies_of(root: Seq<char>, dir: Seq<char>, media: Seq<Media>, op: MapOp) -> Seq<
    (Seq<char>, Seq<char>),
> {
    media.filter(|m: Media| op.start <= m.id < op.end).map_values(
        |m: Media| (joined(root, seq![m.filename@]), joined(dir, seq![m.filename@])),
    )
}

/// One file to copy.
#[derive(Debug)]
pub struct FileCopy {
    pub from: String,
    pub to: String,
}

/// The work of one operation: make the folder `dir`, then make the copies in
/// order.
#[derive(Debug)]
pub struct GroupCopy {
    pub dir: String,
    pub copies: Vec<FileCopy>,
}

pub open spec fn copy_view(c: FileCopy) -> (Seq<char>, Seq<char>) {
    (c.from@, c.to@)
}

/// A session: where the videos are, where the groups go, the catalog and the
/// operations defined so far.
#[derive(Debug)]
pub struct Mapper {
    /// The folder that holds the videos.
    pub root_path: String,
    /// The folder under which the groups are made.
    pub out_path: String,
    pub media: Vec<Media>,
    pub ops: Vec<MapOp>,
}

/// `base` with the component `part` pushed onto it.
fn join_one(base: &str, part: &str) -> (r: String)
    ensures
        r@ == joined(base@, seq![part@]),
{
    let parts: [&str; 1] = [part];
    let slice = parts.as_slice();
    proof {
        assert(slice@ =~= seq![part]);
        assert(crate::util::texts(slice@) =~= seq![part@]);
    }
    join(base, slice)
}

/// Whether a planned group is the work of `op`: its folder is named after the
/// operation under `out`, and it copies the videos in the operation's range.
pub open spec fn plans_op(g: GroupCopy, root: Seq<char>, out: Seq<char>, media: Seq<Media>, op: MapOp) -> bool {
    &&& g.dir@ == joined(out, seq![op.name@])
    &&& g.copies@.map_values(|c: FileCopy| copy_view(c)) == copies_of(root, g.dir@, media, op)
}

impl Mapper {
    /// The folder that holds the videos on a card mounted at `root`.
    pub fn content_path(root: &str) -> (r: String)
        ensures
            r@ == joined(root@, content_parts()),
    {
        let dcim = "DCIM";
        let canon = "100CANON";
        let parts: [&str; 2] = [dcim, canon];
        let slice = parts.as_slice();
        proof {
            reveal_strlit("DCIM");
            reveal_strlit("100CANON");
            assert(slice@ =~= seq![dcim, canon]);
            assert(dcim@ =~= content_parts()[0]);
            assert(canon@ =~= content_parts()[1]);
            assert(crate::util::texts(slice@) =~= content_parts());
        }
        join(root, slice)
    }

    /// Starts a session. `root_exists` says whether the video folder under
    /// `root` exists; `out_dir` is what was found at `out`.
    pub fn try_new(root: String, out: String, root_exists: bool, out_dir: OutputDir) -> (r: Result<
        Self,
        Errors,
    >)
        ensures
            !root_exists ==> (r matches Err(Errors::InvalidRoot(a, b)) && a@ == root@ && b@
                == joined(root@, content_parts())),
            root_exists ==> match out_dir {
                OutputDir::Missing => r == Err::<Self, Errors>(Errors::OutputDirectoryNotFound),
                OutputDir::CreateFailed(k) => r == Err::<Self, Errors>(Errors::IOError(k)),
                OutputDir::ListFailed(k) => r == Err::<Self, Errors>(Errors::IOError(k)),
                OutputDir::Listed(names) => if only_markers(names@) {
                    r matches Ok(m) && m.root_path@ == joined(root@, content_parts())
                        && m.out_path@ == out@ && m.media@.len() == 0 && m.ops@.len() == 0
                } else {
                    r == Err::<Self, Errors>(Errors::OutputDirectoryNotEmpty)
                },
            },
    {
        let root_path = Self::content_path(root.as_str());
        if !root_exists {
            return Err(Errors::InvalidRoot(root, root_path));
        }
        match out_dir {
            OutputDir::Missing => Err(Errors::OutputDirectoryNotFound),
            OutputDir::CreateFailed(k) => Err(Errors::IOError(k)),
            OutputDir::ListFailed(k) => Err(Errors::IOError(k)),
            OutputDir::Listed(names) => {
                if all_markers(&names) {
                    Ok(Mapper { root_path, out_path: out, media: Vec::new(), ops: Vec::new() })
                } else {
                    Err(Errors::OutputDirectoryNotEmpty)
                }
            },
        }
    }

    /// Adds the videos of a scan of the video folder to the catalog, in
    /// ascending order of id. Fails with `NoVideos`, changing nothing, when
    /// the scan holds none.
    pub fn load_media(&mut self, files: &Vec<ScannedFile>) -> (r: Result<(), Errors>)
        ensures
            media_items(files@).len() == 0 <==> r is Err,
            r is Err ==> r == Err::<(), Errors>(Errors::NoVideos) && *final(self) == *old(self),
            r is Ok ==> exists|added: Seq<Media>|
                final(self).media@ == old(self).media@ + added && sorted_by_id(added)
                    && added.to_multiset() == media_items(files@).to_multiset(),
            final(self).root_path == old(self).root_path,
            final(self).out_path == old(self).out_path,
            final(self).ops == old(self).ops,
    {
        match build_catalog(files) {
            Ok(mut v) => {
                let ghost added = v@;
                self.media.append(&mut v);
                assert(self.media@ == old(self).media@ + added);
                Ok(())
            },
            Err(e) => Err(e),
        }
    }

    /// The least and greatest id of the catalog, or `(0, 0)` when it is
    /// empty.
    pub fn get_range(&self) -> (r: Result<(u32, u32), Errors>)
        ensures
            self.media@.len() == 0 ==> r == Ok::<(u32, u32), Errors>((0, 0)),
            self.media@.len() > 0 ==> r == Ok::<(u32, u32), Errors>(
                (self.media@[0].id, self.media@.last().id),
            ),
    {
        if self.media.len() == 0 {
            return Ok((0, 0));
        }
        let start = self.media[0].id;
        let end = self.media[self.media.len() - 1].id;
        Ok((start, end))
    }

    /// The number of videos in the catalog.
    pub fn len(&self) -> (r: usize)
        ensures
            r == self.media@.len(),
    {
        self.media.len()
    }

    /// Checks the operations defined so far.
    pub fn validate_ops(&self) -> (r: Result<OpValidationResult, Errors>)
        ensures
            r matches Ok(v) && validation_of(self.ops@, v),
    {
        Ok(validate(&self.ops))
    }

    /// Adds operations, then checks all of them: fails with the verdict
    /// unless it is `Valid`.
    pub fn add_ops(&mut self, v: Vec<MapOp>) -> (r: Result<(), Errors>)
        ensures
            final(self).ops@ == old(self).ops@ + v@,
            final(self).media == old(self).media,
            final(self).root_path == old(self).root_path,
            final(self).out_path == old(self).out_path,
            r is Ok <==> validation_of(final(self).ops@, OpValidationResult::Valid),
            r matches Err(e) ==> e matches Errors::ValidationError(res) && validation_of(
                final(self).ops@,
                res,
            ),
    {
        let mut v = v;
        self.ops.append(&mut v);
        let res = validate(&self.ops);
        match res {
            OpValidationResult::Valid => Ok(()),
            _ => {
                assert(!validation_of(self.ops@, OpValidationResult::Valid));
                Err(Errors::ValidationError(res))
            },
        }
    }

    /// Whether every video's creation time has a calendar date here.
    pub fn dates_known(&self) -> (r: bool)
        ensures
            r == forall|i: int| 0 <= i < self.media@.len() ==> dated(#[trigger] self.media@[i].created_at),
    {
        let mut i: usize = 0;
        while i < self.media.len()
            invariant
                i <= self.media@.len(),
                forall|k: int| 0 <= k < i ==> dated(#[trigger] self.media@[k].created_at),
            decreases self.media@.len() - i,
        {
            let t = self.media[i].created_at;
            if t < -crate::days::MAX_DATED_SECS || t > crate::days::MAX_DATED_SECS {
                return false;
            }
            i += 1;
        }
        true
    }

    /// The day groups of the catalog, for which `group_by_day` wants labels.
    pub fn day_groups(&self) -> (r: Vec<DayGroup>)
        requires
            forall|i: int| 0 <= i < self.media@.len() ==> #[trigger] self.media@[i].id < u32::MAX,
        ensures
            r@ == day_groups_spec(self.media@),
            day_groups_of(self.media@, r@),
    {
        day_groups(&self.media)
    }

    /// Adds one copy operation for each UTC calendar day on which videos of
    /// the catalog were shot, in ascending order of day, named after the
    /// label given for that day and its date; then checks all operations.
    pub fn group_by_day(&mut self, labels: &Vec<String>) -> (r: Result<(), Errors>)
        requires
            forall|i: int| 0 <= i < old(self).media@.len() ==> #[trigger] old(self).media@[i].id < u32::MAX,
            forall|i: int| 0 <= i < old(self).media@.len() ==> dated(#[trigger] old(self).media@[i].created_at),
            labels@.len() == day_groups_spec(old(self).media@).len(),
        ensures
            ({
                let groups = day_groups_spec(old(self).media@);
                let n = old(self).ops@.len();
                &&& final(self).ops@.len() == n + groups.len()
                &&& final(self).ops@.subrange(0, n as int) == old(self).ops@
                &&& forall|j: int| 0 <= j < groups.len() ==> is_day_op(#[trigger] final(self).ops@[n + j], groups[j], labels@[j]@)
            }),
            final(self).media == old(self).media,
            r is Ok <==> validation_of(final(self).ops@, OpValidationResult::Valid),
            r matches Err(e) ==> e matches Errors::ValidationError(res) && validation_of(
                final(self).ops@,
                res,
            ),
    {
        let groups = day_groups(&self.media);
        proof {
            crate::days::lemma_groups_dated(self.media@, groups@);
        }
        let v = day_ops(&groups, labels);
        let ghost n = self.ops@.len();
        let r = self.add_ops(v);
        assert(self.ops@.subrange(0, n as int) =~= old(self).ops@);
        r
    }

    fn plan_group(&self, op: &MapOp) -> (r: GroupCopy)
        ensures
            plans_op(r, self.root_path@, self.out_path@, self.media@, *op),
    {
        let dir = join_one(self.out_path.as_str(), op.name.as_str());
        let ghost pred = |m: Media| op.start <= m.id < op.end;
        let ghost f = |m: Media| (joined(self.root_path@, seq![m.filename@]), joined(dir@, seq![m.filename@]));
        let mut copies: Vec<FileCopy> = Vec::new();
        let mut k: usize = 0;
        while k < self.media.len()
            invariant
                k <= self.media@.len(),
                pred == (|m: Media| op.start <= m.id < op.end),
                f == (|m: Media| (joined(self.root_path@, seq![m.filename@]), joined(dir@, seq![m.filename@]))),
                copies@.map_values(|c: FileCopy| copy_view(c)) == self.media@.subrange(0, k as int).filter(pred).map_values(f),
            decreases self.media@.len() - k,
        {
            let m = &self.media[k];
            proof {
                let pre = self.media@.subrange(0, k as int);
                assert(self.media@.subrange(0, k as int + 1) =~= pre.push(*m));
                pre.lemma_filter_push(*m, pred);
            }
            if op.start <= m.id && m.id < op.end {
                let from = join_one(self.root_path.as_str(), m.filename.as_str());
                let to = join_one(dir.as_str(), m.filename.as_str());
                let ghost before = copies@;
                copies.push(FileCopy { from, to });
                proof {
                    let pre = self.media@.subrange(0, k as int);
                    assert(copies@.map_values(|c: FileCopy| copy_view(c)) =~= before.map_values(|c: FileCopy| copy_view(c)).push(copy_view(copies@.last())));
                    assert(pre.filter(pred).push(*m).map_values(f) =~= pre.filter(pred).map_values(f).push(f(*m)));
                }
            }
            k += 1;
        }
        assert(self.media@.subrange(0, self.media@.len() as int) =~= self.media@);
        GroupCopy { dir, copies }
    }

    /// The work that a run performs, one entry for each operation in order:
    /// the folder to make under the output folder, named after the operation,
    /// and the videos of the catalog in its range to copy there, in catalog
    /// order, under their own names.
    pub fn execute(&self) -> (r: Vec<GroupCopy>)
        ensures
            r@.len() == self.ops@.len(),
            forall|i: int| 0 <= i < r@.len() ==> plans_op(#[trigger] r@[i], self.root_path@, self.out_path@, self.media@, self.ops@[i]),
    {
        let mut plan: Vec<GroupCopy> = Vec::new();
        let mut i: usize = 0;
        while i < self.ops.len()
            invariant
                i <= self.ops@.len(),
                plan@.len() == i,
                forall|j: int| 0 <= j < i ==> plans_op(#[trigger] plan@[j], self.root_path@, self.out_path@, self.media@, self.ops@[j]),
            decreases self.ops@.len() - i,
        {
            let g = self.plan_group(&self.ops[i]);
            plan.push(g);
            i += 1;
        }
        plan
    }

    /// Adds the operations that the user entered, then checks all
    /// operations.
    pub fn prompt_for_ops(&mut self, entered: Vec<MapOp>) -> (r: Result<(), Errors>)
        ensures
            final(self).ops@ == old(self).ops@ + entered@,
            final(self).media == old(self).media,
            r is Ok <==> validation_of(final(self).ops@, OpValidationResult::Valid),
            r matches Err(e) ==> e matches Errors::ValidationError(res) && validation_of(
                final(self).ops@,
                res,
            ),
    {
        self.add_ops(entered)
    }
}

} // verus!

use vstd::prelude::*;
use vstd::seq_lib::to_multiset_insert;
use vstd::seq_lib::to_multiset_build;
use crate::error::Errors;

verus! {

/// A video of the source folder.
#[derive(Debug)]
pub struct Media {
    /// The four-digit number in the file name.
    pub id: u32,
    pub filename: String,
    /// Creation time, in seconds since 1970-01-01 00:00:00 UTC.
    pub created_at: i64,
}

/// What a scan of the source folder saw of one entry.
#[derive(Debug)]
pub struct ScannedFile {
    pub name: String,
    /// Whether the entry is a regular file.
    pub is_file: bool,
    /// Creation time, in seconds since 1970-01-01 00:00:00 UTC.
    pub created_at: i64,
}

pub open spec fn is_digit(c: char) -> bool {
    '0' <= c <= '9'
}

pub open spec fn digit_value(c: char) -> int {
    c as int - '0' as int
}

/// Whether `MVI_`, four decimal digits and `.MOV` stand in `s` from `i` on.
pub open spec fn pattern_at(s: Seq<char>, i: int) -> bool {
    &&& 0 <= i
    &&& i + 12 <= s.len()
    &&& s[i] == 'M' && s[i + 1] == 'V' && s[i + 2] == 'I' && s[i + 3] == '_'
    &&& is_digit(s[i + 4]) && is_digit(s[i + 5]) && is_digit(s[i + 6]) && is_digit(s[i + 7])
    &&& s[i + 8] == '.' && s[i + 9] == 'M' && s[i + 10] == 'O' && s[i + 11] == 'V'
}

/// The number that the four digits of a match at `i` spell.
pub open spec fn id_at(s: Seq<char>, i: int) -> int {
    1000 * digit_value(s[i + 4]) + 100 * digit_value(s[i + 5]) + 10 * digit_value(s[i + 6])
        + digit_value(s[i + 7])
}

/// The first position, from `i` on, where the pattern stands in `s`.
pub open spec fn first_match_from(s: Seq<char>, i: int) -> Option<int>
    decreases s.len() - i,
{
    if i < 0 || i + 12 > s.len() {
        None
    } else if pattern_at(s, i) {
        Some(i)
    } else {
        first_match_from(s, i + 1)
    }
}

/// The id in a file name: the digits of the leftmost match of the pattern.
pub open spec fn media_id_of(s: Seq<char>) -> Option<u32> {
    match first_match_from(s, 0) {
        Some(i) => Some(id_at(s, i) as u32),
        None => None,
    }
}

/// The catalog item that a scanned entry gives, if any.
pub open spec fn media_of(f: ScannedFile) -> Option<Media> {
    if f.is_file {
        match media_id_of(f.name@) {
            Some(id) => Some(Media { id, filename: f.name, created_at: f.created_at }),
            None => None,
        }
    } else {
        None
    }
}

/// The catalog items of a scan, in scan order.
pub open spec fn media_items(files: Seq<ScannedFile>) -> Seq<Media> {
    files.filter_map(|f: ScannedFile| media_of(f))
}

/// Whether the items are in ascending order of id.
pub open spec fn sorted_by_id(s: Seq<Media>) -> bool {
    forall|i: int, j: int| 0 <= i < j < s.len() ==> #[trigger] s[i].id <= #[trigger] s[j].id
}

proof fn lemma_first_match_from(s: Seq<char>, i: int)
    requires
        0 <= i,
    ensures
        match first_match_from(s, i) {
            Some(k) => i <= k && pattern_at(s, k) && forall|j: int|
                i <= j < k ==> !pattern_at(s, j),
            None => forall|j: int| i <= j ==> !pattern_at(s, j),
        },
    decreases s.len() - i,
{
    if i + 12 <= s.len() && !pattern_at(s, i) {
        lemma_first_match_from(s, i + 1);
    }
}

/// A file name that the pattern does not match anywhere has no id, and one
/// that it does has the id of its leftmost match.
pub proof fn lemma_media_id_of(s: Seq<char>)
    ensures
        media_id_of(s) is None <==> forall|i: int| !pattern_at(s, i),
        media_id_of(s) is Some ==> exists|i: int|
            pattern_at(s, i) && (forall|j: int| 0 <= j < i ==> !pattern_at(s, j))
                && media_id_of(s) == Some(id_at(s, i) as u32),
{
    lemma_first_match_from(s, 0);
    if let Some(k) = first_match_from(s, 0) {
        assert(pattern_at(s, k));
    }
}

fn char_at(s: &str, i: usize) -> (c: char)
    requires
        i < s@.len(),
    ensures
        c == s@[i as int],
{
    s.get_char(i)
}

fn digit_of(c: char) -> (d: u32)
    requires
        is_digit(c),
    ensures
        d as int == digit_value(c),
{
    (c as u32) - ('0' as u32)
}

/// Whether the pattern stands in `s` from `i` on; `n` is the length of `s`.
fn matches_at(s: &str, n: usize, i: usize) -> (r: bool)
    requires
        n == s@.len(),
    ensures
        r == pattern_at(s@, i as int),
{
    if i > n || n - i < 12 {
        return false;
    }
    char_at(s, i) == 'M' && char_at(s, i + 1) == 'V' && char_at(s, i + 2) == 'I' && char_at(
        s,
        i + 3,
    ) == '_' && '0' <= char_at(s, i + 4) && char_at(s, i + 4) <= '9' && '0' <= char_at(s, i + 5)
        && char_at(s, i + 5) <= '9' && '0' <= char_at(s, i + 6) && char_at(s, i + 6) <= '9' && '0'
        <= char_at(s, i + 7) && char_at(s, i + 7) <= '9' && char_at(s, i + 8) == '.' && char_at(
        s,
        i + 9,
    ) == 'M' && char_at(s, i + 10) == 'O' && char_at(s, i + 11) == 'V'
}

/// The id of a video file name: the four digits of the leftmost place where
/// `MVI_####.MOV` stands in it, or `None` where it stands nowhere.
pub fn media_id(name: &str) -> (r: Option<u32>)
    ensures
        r == media_id_of(name@),
{
    let n = name.unicode_len();
    let mut i: usize = 0;
    while i < n
        invariant
            n == name@.len(),
            i <= n,
            first_match_from(name@, 0) == first_match_from(name@, i as int),
        decreases n - i,
    {
        if matches_at(name, n, i) {
            let id = 1000 * digit_of(char_at(name, i + 4)) + 100 * digit_of(char_at(name, i + 5))
                + 10 * digit_of(char_at(name, i + 6)) + digit_of(char_at(name, i + 7));
            return Some(id);
        }
        if n - i < 12 {
            return None;
        }
        i += 1;
    }
    None
}

/// Puts `m` into the sorted `v`, after every item whose id is not greater.
fn insert_sorted(v: &mut Vec<Media>, m: Media)
    requires
        sorted_by_id(old(v)@),
    ensures
        sorted_by_id(final(v)@),
        final(v)@.to_multiset() == old(v)@.to_multiset().insert(m),
{
    let mut pos: usize = v.len();
    while pos > 0 && v[pos - 1].id > m.id
        invariant
            pos <= v@.len(),
            v@ == old(v)@,
            sorted_by_id(v@),
            forall|k: int| pos <= k < v@.len() ==> v@[k].id > m.id,
        decreases pos,
    {
        pos -= 1;
    }
    proof {
        to_multiset_insert(v@, pos as int, m);
    }
    v.insert(pos, m);
}

/// The catalog of a scan: the regular files whose names carry an id, in
/// ascending order of id. Fails with `NoVideos` when there is none.
pub fn build_catalog(files: &Vec<ScannedFile>) -> (r: Result<Vec<Media>, Errors>)
    ensures
        media_items(files@).len() == 0 <==> r is Err,
        r is Err ==> r == Err::<Vec<Media>, Errors>(Errors::NoVideos),
        r matches Ok(v) ==> sorted_by_id(v@) && v@.to_multiset() == media_items(
            files@,
        ).to_multiset(),
        r matches Ok(v) ==> forall|i: int| 0 <= i < v@.len() - 1 ==> #[trigger] v@[i].id <= v@[i + 1].id,
{
    let mut v: Vec<Media> = Vec::new();
    let mut i: usize = 0;
    while i < files.len()
        invariant
            i <= files@.len(),
            sorted_by_id(v@),
            v@.to_multiset() == media_items(files@.subrange(0, i as int)).to_multiset(),
        decreases files@.len() - i,
    {
        let f = &files[i];
        proof {
            let pre = files@.subrange(0, i as int + 1);
            assert(pre.drop_last() =~= files@.subrange(0, i as int));
            assert(pre.last() == files@[i as int]);
            assert(media_items(pre) == match media_of(files@[i as int]) {
                Some(x) => media_items(pre.drop_last()).push(x),
                None => media_items(pre.drop_last()),
            });
        }
        if f.is_file {
            if let Some(id) = media_id(f.name.as_str()) {
                let m = Media { id, filename: f.name.clone(), created_at: f.created_at };
                proof {
                    to_multiset_build(media_items(files@.subrange(0, i as int)), m);
                }
                insert_sorted(&mut v, m);
            }
        }
        i += 1;
    }
    assert(files@.subrange(0, files@.len() as int) =~= files@);
    if v.len() == 0 {
        proof {
            vstd::seq_lib::to_multiset_len(v@);
            vstd::seq_lib::to_multiset_len(media_items(files@));
        }
        Err(Errors::NoVideos)
    } else {
        proof {
            vstd::seq_lib::to_multiset_len(v@);
            vstd::seq_lib::to_multiset_len(media_items(files@));
        }
        Ok(v)
    }
}

/// A catalog holds no file whose name the pattern `MVI_####.MOV` does not
/// match: each of its items is a regular file of the scan whose name the
/// pattern matches, with the id that its leftmost match spells.
pub proof fn lemma_catalog_excludes_unmatched(files: Seq<ScannedFile>, catalog: Seq<Media>, k: int)
    requires
        catalog.to_multiset() == media_items(files).to_multiset(),
        0 <= k < catalog.len(),
    ensures
        exists|i: int| pattern_at(catalog[k].filename@, i),
        media_id_of(catalog[k].filename@) == Some(catalog[k].id),
        exists|j: int| 0 <= j < files.len() && files[j].is_file && #[trigger] files[j].name == catalog[k].filename,
{
    let m = catalog[k];
    assert(catalog.contains(m));
    vstd::seq_lib::to_multiset_contains(catalog, m);
    vstd::seq_lib::to_multiset_contains(media_items(files), m);
    files.lemma_filter_map_contains(|f: ScannedFile| media_of(f), m);
    let f = choose|t: ScannedFile| #[trigger] files.contains(t) && media_of(t) == Some(m);
    let j = choose|j: int| 0 <= j < files.len() && files[j] == f;
    assert(files[j].name == m.filename);
    lemma_media_id_of(m.filename@);
}

} // verus!

//! Decisions taken on what the repository reports: how a merge analysis is
//! read, which conflict entries qualify for resolution, and how names and
//! texts read from the repository are cleaned and presented.

use vstd::prelude::*;
use vstd::multiset::Multiset;
use vstd::seq_lib::{to_multiset_build, to_multiset_insert};
use vstd::utf8::{decode_utf8, valid_utf8};

use crate::model::ConflictFile;
use crate::text::{chars_of, push_char};

verus! {

/// Relies on `String::from_utf8`: it succeeds exactly when the bytes are
/// valid UTF-8, and then holds the text they encode.
#[verifier::external_body]
fn decode_text(bytes: Vec<u8>) -> (r: Option<String>)
    ensures
        r is Some <==> valid_utf8(bytes@),
        r is Some ==> r->0@ == decode_utf8(bytes@),
{
    String::from_utf8(bytes).ok()
}

/// `b` with every zero byte removed.
pub open spec fn drop_nul_bytes(b: Seq<u8>) -> Seq<u8>
    decreases b.len(),
{
    if b.len() == 0 {
        b
    } else if b.last() == 0 {
        drop_nul_bytes(b.drop_last())
    } else {
        drop_nul_bytes(b.drop_last()).push(b.last())
    }
}

/// `s` with every NUL character removed.
pub open spec fn drop_nul(s: Seq<char>) -> Seq<char>
    decreases s.len(),
{
    if s.len() == 0 {
        s
    } else if s.last() == '\0' {
        drop_nul(s.drop_last())
    } else {
        drop_nul(s.drop_last()).push(s.last())
    }
}

/// The bytes of `b` without its zero bytes.
pub fn strip_nul_bytes(b: &Vec<u8>) -> (r: Vec<u8>)
    ensures
        r@ == drop_nul_bytes(b@),
{
    let mut r: Vec<u8> = Vec::new();
    let mut i: usize = 0;
    proof {
        assert(b@.take(0) =~= Seq::<u8>::empty());
    }
    while i < b.len()
        invariant
            i <= b.len(),
            r@ == drop_nul_bytes(b@.take(i as int)),
        decreases b.len() - i,
    {
        proof {
            assert(b@.take(i + 1).drop_last() =~= b@.take(i as int));
        }
        if b[i] != 0 {
            r.push(b[i]);
        }
        i = i + 1;
    }
    proof {
        assert(b@.take(i as int) =~= b@);
    }
    r
}

/// `s` without its NUL characters.
pub fn strip_nul(s: &str) -> (r: String)
    ensures
        r@ == drop_nul(s@),
{
    let cs = chars_of(s);
    let mut r = String::new();
    let mut i: usize = 0;
    proof {
        assert(cs@.take(0) =~= Seq::<char>::empty());
    }
    while i < cs.len()
        invariant
            i <= cs.len(),
            r@ == drop_nul(cs@.take(i as int)),
        decreases cs.len() - i,
    {
        proof {
            assert(cs@.take(i + 1).drop_last() =~= cs@.take(i as int));
        }
        if cs[i] != '\0' {
            push_char(&mut r, cs[i]);
        }
        i = i + 1;
    }
    proof {
        assert(cs@.take(i as int) =~= cs@);
    }
    r
}

/// The text of a blob: its bytes without zero bytes, when those are UTF-8.
pub fn blob_text(bytes: &Vec<u8>) -> (r: Option<String>)
    ensures
        r is Some <==> valid_utf8(drop_nul_bytes(bytes@)),
        r is Some ==> r->0@ == decode_utf8(drop_nul_bytes(bytes@)),
{
    decode_text(strip_nul_bytes(bytes))
}

/// A blob whose text can be read.
pub open spec fn readable(b: Option<Vec<u8>>) -> bool {
    b is Some && valid_utf8(drop_nul_bytes(b->0@))
}

/// The text of a readable blob.
pub open spec fn text_of(b: Vec<u8>) -> Seq<char> {
    decode_utf8(drop_nul_bytes(b@))
}

/// The conflicted file for one unmerged index entry, from its path and the
/// contents of its sides (`None` where a side is absent or could not be
/// read). The entry qualifies only when its path is UTF-8 and both of its
/// sides are present and readable; a common ancestor that cannot be read is
/// left out.
pub fn conflict_from_entry(
    path: &Vec<u8>,
    ours: Option<Vec<u8>>,
    theirs: Option<Vec<u8>>,
    base: Option<Vec<u8>>,
) -> (r: Option<ConflictFile>)
    ensures
        r is Some <==> valid_utf8(path@) && readable(ours) && readable(theirs),
        r is Some ==> ({
            let c = r->0;
            &&& c.path@ == drop_nul(decode_utf8(path@))
            &&& c.our_content@ == text_of(ours->0)
            &&& c.their_content@ == text_of(theirs->0)
            &&& readable(base) ==> c.base_content is Some && c.base_content->0@ == text_of(base->0)
            &&& !readable(base) ==> c.base_content is None
        }),
{
    let (ours, theirs) = match (ours, theirs) {
        (Some(o), Some(t)) => (o, t),
        _ => {
            return None;
        },
    };
    let name = match decode_text(path.clone()) {
        Some(n) => n,
        None => {
            return None;
        },
    };
    let our_content = match blob_text(&ours) {
        Some(t) => t,
        None => {
            return None;
        },
    };
    let their_content = match blob_text(&theirs) {
        Some(t) => t,
        None => {
            return None;
        },
    };
    let base_content = match &base {
        Some(b) => blob_text(b),
        None => None,
    };
    Some(ConflictFile { path: strip_nul(name.as_str()), our_content, their_content, base_content })
}

/// `a` sorts no later than `b`: character by character in code-point order,
/// a prefix first. This is the byte order of their UTF-8 encodings.
pub open spec fn path_le(a: Seq<char>, b: Seq<char>) -> bool
    decreases a.len(),
{
    if a.len() == 0 {
        true
    } else if b.len() == 0 {
        false
    } else if (a[0] as u32) != (b[0] as u32) {
        (a[0] as u32) < (b[0] as u32)
    } else {
        path_le(a.drop_first(), b.drop_first())
    }
}

proof fn lemma_path_le_total(a: Seq<char>, b: Seq<char>)
    ensures
        path_le(a, b) || path_le(b, a),
    decreases a.len(),
{
    if a.len() > 0 && b.len() > 0 && (a[0] as u32) == (b[0] as u32) {
        lemma_path_le_total(a.drop_first(), b.drop_first());
    }
}

proof fn lemma_path_le_transitive(a: Seq<char>, b: Seq<char>, c: Seq<char>)
    requires
        path_le(a, b),
        path_le(b, c),
    ensures
        path_le(a, c),
    decreases a.len(),
{
    if a.len() > 0 && b.len() > 0 && c.len() > 0 && (a[0] as u32) == (b[0] as u32) && (b[0] as u32)
        == (c[0] as u32) {
        lemma_path_le_transitive(a.drop_first(), b.drop_first(), c.drop_first());
    }
}

fn chars_le(a: &Vec<char>, b: &Vec<char>) -> (r: bool)
    ensures
        r == path_le(a@, b@),
{
    let mut i: usize = 0;
    proof {
        assert(a@.skip(0) =~= a@);
        assert(b@.skip(0) =~= b@);
    }
    while i < a.len() && i < b.len() && (a[i] as u32) == (b[i] as u32)
        invariant
            i <= a.len(),
            i <= b.len(),
            path_le(a@, b@) == path_le(a@.skip(i as int), b@.skip(i as int)),
        decreases a.len() - i,
    {
        proof {
            assert(a@.skip(i as int).drop_first() =~= a@.skip(i + 1));
            assert(b@.skip(i as int).drop_first() =~= b@.skip(i + 1));
        }
        i = i + 1;
    }
    if i == a.len() {
        true
    } else if i == b.len() {
        false
    } else {
        (a[i] as u32) < (b[i] as u32)
    }
}

/// The files are in ascending order of path.
pub open spec fn sorted_by_path(fs: Seq<ConflictFile>) -> bool {
    forall|i: int, j: int| 0 <= i < j < fs.len() ==> path_le(fs[i].path@, fs[j].path@)
}

/// The conflicted files in ascending order of path, so that they are resolved
/// and reported in the same order on every run.
pub fn order_by_path(files: Vec<ConflictFile>) -> (r: Vec<ConflictFile>)
    ensures
        sorted_by_path(r@),
        r@.to_multiset() == files@.to_multiset(),
{
    let mut src = files;
    let mut r: Vec<ConflictFile> = Vec::new();
    proof {
        broadcast use vstd::seq_lib::group_to_multiset_ensures;

        assert(r@.to_multiset() =~= Multiset::<ConflictFile>::empty());
        assert(r@.to_multiset().add(src@.to_multiset()) =~= files@.to_multiset());
    }
    while src.len() > 0
        invariant
            sorted_by_path(r@),
            r@.to_multiset().add(src@.to_multiset()) == files@.to_multiset(),
        decreases src.len(),
    {
        let ghost before = src@;
        let x = src.pop().unwrap();
        proof {
            assert(before =~= src@.push(x));
            to_multiset_build(src@, x);
        }
        let key = chars_of(x.path.as_str());
        let mut p: usize = r.len();
        loop
            invariant
                p <= r.len(),
                sorted_by_path(r@),
                key@ == x.path@,
                forall|k: int| p <= k < r.len() ==> path_le(key@, (#[trigger] r@[k]).path@),
            ensures
                p <= r.len(),
                key@ == x.path@,
                forall|k: int| p <= k < r.len() ==> path_le(key@, (#[trigger] r@[k]).path@),
                p == 0 || path_le(r@[p - 1].path@, key@),
            decreases p,
        {
            if p == 0 {
                break;
            }
            let other = chars_of(r[p - 1].path.as_str());
            if chars_le(&other, &key) {
                break;
            }
            proof {
                lemma_path_le_total(key@, other@);
            }
            p = p - 1;
        }
        let ghost old_r = r@;
        r.insert(p, x);
        proof {
            to_multiset_insert(old_r, p as int, x);
            assert(r@.to_multiset().add(src@.to_multiset()) =~= files@.to_multiset());
            assert forall|i: int, j: int| 0 <= i < j < r@.len() implies path_le(
                r@[i].path@,
                r@[j].path@,
            ) by {
                if j < p {
                    assert(r@[i] == old_r[i] && r@[j] == old_r[j]);
                } else if j == p {
                    assert(r@[i] == old_r[i]);
                    if i < p - 1 {
                        lemma_path_le_transitive(old_r[i].path@, old_r[p - 1].path@, x.path@);
                    }
                } else if i < p {
                    assert(r@[i] == old_r[i] && r@[j] == old_r[j - 1]);
                    if i < j - 1 {
                    }
                } else if i == p {
                    assert(r@[j] == old_r[j - 1]);
                } else {
                    assert(r@[i] == old_r[i - 1] && r@[j] == old_r[j - 1]);
                }
            }
        }
    }
    proof {
        broadcast use vstd::seq_lib::group_to_multiset_ensures;

        assert(src@ =~= Seq::<ConflictFile>::empty());
        assert(src@.to_multiset() =~= Multiset::<ConflictFile>::empty());
        assert(r@.to_multiset().add(src@.to_multiset()) =~= r@.to_multiset());
    }
    r
}

/// How a merge proceeds, from the repository's analysis of it.
#[derive(Debug, PartialEq, Eq, Structural)]
pub enum MergePlan {
    /// A real merge is needed.
    Normal,
    /// Nothing to merge.
    UpToDate,
    /// The target can simply move to the source.
    FastForward,
}

/// Reads a merge analysis: "up to date" takes precedence over a
/// fast-forward, which takes precedence over a real merge (a merge that can
/// fast-forward is reported as both); an analysis with none of them is not
/// understood.
pub fn plan_merge(normal: bool, up_to_date: bool, fast_forward: bool) -> (r: Option<MergePlan>)
    ensures
        up_to_date ==> r == Some(MergePlan::UpToDate),
        !up_to_date && fast_forward ==> r == Some(MergePlan::FastForward),
        !up_to_date && !fast_forward && normal ==> r == Some(MergePlan::Normal),
        !up_to_date && !fast_forward && !normal ==> r is None,
{
    if up_to_date {
        Some(MergePlan::UpToDate)
    } else if fast_forward {
        Some(MergePlan::FastForward)
    } else if normal {
        Some(MergePlan::Normal)
    } else {
        None
    }
}

/// The message of the commit that merges `source` into `target`.
pub fn merge_commit_message(source: &str, target: &str) -> (r: String)
    ensures
        r@ == "Merge branch '"@ + drop_nul(source@) + "' into '"@ + drop_nul(target@) + "'"@,
{
    let mut r = String::from_str("Merge branch '");
    let s = strip_nul(source);
    r.append(s.as_str());
    r.append("' into '");
    let t = strip_nul(target);
    r.append(t.as_str());
    r.append("'");
    r
}

/// Index of the first newline of `s`, or its length when it has none.
pub open spec fn first_newline(s: Seq<char>) -> int
    decreases s.len(),
{
    if s.len() == 0 {
        0
    } else if first_newline(s.drop_last()) < s.len() - 1 {
        first_newline(s.drop_last())
    } else if s.last() == '\n' {
        s.len() - 1
    } else {
        s.len() as int
    }
}

proof fn lemma_first_newline_bounds(s: Seq<char>)
    ensures
        0 <= first_newline(s) <= s.len(),
        first_newline(s) < s.len() ==> s[first_newline(s)] == '\n',
    decreases s.len(),
{
    if s.len() > 0 {
        lemma_first_newline_bounds(s.drop_last());
    }
}

fn string_of(cs: &Vec<char>, lo: usize, hi: usize) -> (r: String)
    requires
        lo <= hi <= cs.len(),
    ensures
        r@ == cs@.subrange(lo as int, hi as int),
{
    let mut r = String::new();
    let mut k: usize = lo;
    while k < hi
        invariant
            lo <= k <= hi <= cs.len(),
            r@ == cs@.subrange(lo as int, k as int),
        decreases hi - k,
    {
        push_char(&mut r, cs[k]);
        proof {
            assert(cs@.subrange(lo as int, k + 1) =~= cs@.subrange(lo as int, k as int).push(
                cs@[k as int],
            ));
        }
        k = k + 1;
    }
    r
}

/// Splits a commit message into its title (up to the first newline) and the
/// rest (after it; empty when there is no newline).
pub fn split_commit_message(message: &str) -> (r: (String, String))
    ensures
        r.0@ == message@.take(first_newline(message@)),
        first_newline(message@) < message@.len() ==> r.1@ == message@.skip(
            first_newline(message@) + 1,
        ),
        first_newline(message@) == message@.len() ==> r.1@.len() == 0,
{
    let cs = chars_of(message);
    let mut i: usize = 0;
    proof {
        assert(cs@.take(0) =~= Seq::<char>::empty());
    }
    while i < cs.len() && cs[i] != '\n'
        invariant
            i <= cs.len(),
            first_newline(cs@.take(i as int)) == i,
        decreases cs.len() - i,
    {
        proof {
            assert(cs@.take(i + 1).drop_last() =~= cs@.take(i as int));
        }
        i = i + 1;
    }
    proof {
        lemma_first_newline_prefix(cs@, i as int);
    }
    let title = string_of(&cs, 0, i);
    let rest = if i < cs.len() {
        string_of(&cs, i + 1, cs.len())
    } else {
        String::new()
    };
    proof {
        assert(cs@.subrange(0, i as int) =~= cs@.take(i as int));
        assert(cs@.subrange(i + 1, cs@.len() as int) =~= cs@.skip(i + 1));
    }
    (title, rest)
}

proof fn lemma_first_newline_prefix(s: Seq<char>, i: int)
    requires
        0 <= i <= s.len(),
        first_newline(s.take(i)) == i,
        i < s.len() ==> s[i] == '\n',
    ensures
        first_newline(s) == i,
    decreases s.len(),
{
    if s.len() > i {
        let p = s.drop_last();
        assert(p.take(i) =~= s.take(i));
        if p.len() > i {
            assert(p[i] == s[i]);
        }
        lemma_first_newline_prefix(p, i);
        if i == s.len() - 1 {
            assert(first_newline(p) == i);
        }
    } else {
        assert(s.take(i) =~= s);
    }
}

/// The first seven characters of a commit id (all of it when shorter).
pub fn abbreviate_id(id: &str) -> (r: String)
    ensures
        id@.len() >= 7 ==> r@ == id@.take(7),
        id@.len() < 7 ==> r@ == id@,
{
    let cs = chars_of(id);
    let n: usize = if cs.len() < 7 {
        cs.len()
    } else {
        7
    };
    let r = string_of(&cs, 0, n);
    proof {
        assert(cs@.subrange(0, n as int) =~= cs@.take(n as int));
        assert(cs@.take(cs@.len() as int) =~= cs@);
    }
    r
}

} // verus!

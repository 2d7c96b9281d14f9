//! Discovery planning: order the candidate files deterministically by
//! path, classify each from its leading bytes, drop unrecognized files,
//! and assign every surviving task its stable index — the index its
//! metadata result is later delivered under, whatever order the parallel
//! probes complete in.

use vstd::prelude::*;
use vstd::multiset::Multiset;
use crate::format::{identify_format, identify_spec, ImageFormat};

verus! {

/// Strict lexicographic order on character sequences, by code point.
pub open spec fn chars_lt(a: Seq<char>, b: Seq<char>) -> bool
    decreases a.len(),
{
    if b.len() == 0 {
        false
    } else if a.len() == 0 {
        true
    } else if (a[0] as int) < (b[0] as int) {
        true
    } else if (b[0] as int) < (a[0] as int) {
        false
    } else {
        chars_lt(a.drop_first(), b.drop_first())
    }
}

/// Non-strict lexicographic order.
pub open spec fn chars_le(a: Seq<char>, b: Seq<char>) -> bool {
    !chars_lt(b, a)
}

/// The strict order is asymmetric.
pub proof fn lemma_chars_lt_asym(a: Seq<char>, b: Seq<char>)
    ensures
        !(chars_lt(a, b) && chars_lt(b, a)),
    decreases a.len(),
{
    if a.len() > 0 && b.len() > 0 && a[0] == b[0] {
        lemma_chars_lt_asym(a.drop_first(), b.drop_first());
    }
}

/// The strict order is transitive.
pub proof fn lemma_chars_lt_trans(a: Seq<char>, b: Seq<char>, c: Seq<char>)
    requires
        chars_lt(a, b),
        chars_lt(b, c),
    ensures
        chars_lt(a, c),
    decreases a.len(),
{
    if a.len() > 0 && b.len() > 0 && c.len() > 0 && a[0] == b[0] && b[0] == c[0] {
        lemma_chars_lt_trans(a.drop_first(), b.drop_first(), c.drop_first());
    }
}

/// Any two character sequences are ordered or equal.
pub proof fn lemma_chars_lt_total(a: Seq<char>, b: Seq<char>)
    ensures
        chars_lt(a, b) || chars_lt(b, a) || a == b,
    decreases a.len(),
{
    if a.len() == 0 && b.len() == 0 {
        assert(a =~= b);
    } else if a.len() > 0 && b.len() > 0 && a[0] == b[0] {
        lemma_chars_lt_total(a.drop_first(), b.drop_first());
        if !chars_lt(a, b) && !chars_lt(b, a) {
            assert(a.drop_first() == b.drop_first());
            assert(a =~= b) by {
                assert forall|i: int| 0 <= i < a.len() implies a[i] == b[i] by {
                    if i > 0 {
                        assert(a[i] == a.drop_first()[i - 1]);
                        assert(b[i] == b.drop_first()[i - 1]);
                    }
                }
            }
        }
    }
}

/// The non-strict order is transitive.
pub proof fn lemma_chars_le_trans(a: Seq<char>, b: Seq<char>, c: Seq<char>)
    requires
        chars_le(a, b),
        chars_le(b, c),
    ensures
        chars_le(a, c),
{
    if chars_lt(c, a) {
        lemma_chars_lt_total(a, b);
        if chars_lt(a, b) {
            lemma_chars_lt_trans(c, a, b);
        } else if a == b {
        } else {
        }
    }
}

/// Dropping a shared first character keeps the order.
proof fn lemma_chars_lt_skip_one(a: Seq<char>, b: Seq<char>)
    requires
        a.len() > 0,
        b.len() > 0,
        a[0] == b[0],
    ensures
        chars_lt(a, b) == chars_lt(a.drop_first(), b.drop_first()),
{
}

/// Decide the strict lexicographic order of two string slices.
pub fn str_lt(a: &str, b: &str) -> (r: bool)
    ensures
        r == chars_lt(a@, b@),
{
    let la: usize = a.unicode_len();
    let lb: usize = b.unicode_len();
    let mut i: usize = 0;
    proof {
        assert(a@.skip(0) =~= a@);
        assert(b@.skip(0) =~= b@);
    }
    loop
        invariant
            la == a@.len(),
            lb == b@.len(),
            i <= la,
            i <= lb,
            forall|j: int| 0 <= j < i ==> a@[j] == b@[j],
            chars_lt(a@, b@) == chars_lt(a@.skip(i as int), b@.skip(i as int)),
        decreases la - i,
    {
        if i == la || i == lb {
            proof {
                if i == la {
                    assert(a@.skip(i as int).len() == 0);
                } else {
                    assert(b@.skip(i as int).len() == 0);
                    assert(a@.skip(i as int).len() > 0);
                }
            }
            return i == la && i < lb;
        }
        let ca = a.get_char(i);
        let cb = b.get_char(i);
        proof {
            assert(a@.skip(i as int)[0] == a@[i as int]);
            assert(b@.skip(i as int)[0] == b@[i as int]);
        }
        if (ca as u32) < (cb as u32) {
            return true;
        }
        if (cb as u32) < (ca as u32) {
            return false;
        }
        proof {
            lemma_chars_lt_skip_one(a@.skip(i as int), b@.skip(i as int));
            assert(a@.skip(i as int).drop_first() =~= a@.skip(i as int + 1));
            assert(b@.skip(i as int).drop_first() =~= b@.skip(i as int + 1));
        }
        i = i + 1;
    }
}

/// Every path comes no later than any path after it.
pub open spec fn paths_sorted(s: Seq<String>) -> bool {
    forall|i: int, j: int| 0 <= i < j < s.len() ==> chars_le(#[trigger] s[i]@, #[trigger] s[j]@)
}

/// The position an element belongs at among the first `upto` entries of
/// a run: everything before it comes no later, everything from it on
/// comes strictly later.
fn find_insert_pos(out: &Vec<String>, upto: usize, x: &str) -> (pos: usize)
    requires
        upto <= out@.len(),
    ensures
        pos <= upto,
        forall|j: int| 0 <= j < pos ==> chars_le(#[trigger] out@[j]@, x@),
        pos < upto ==> chars_lt(x@, out@[pos as int]@),
{
    let mut pos: usize = 0;
    while pos < upto
        invariant
            upto <= out@.len(),
            pos <= upto,
            forall|j: int| 0 <= j < pos ==> chars_le(#[trigger] out@[j]@, x@),
        decreases upto - pos,
    {
        if str_lt(x, out[pos].as_str()) {
            return pos;
        }
        proof {
            lemma_chars_lt_total(out@[pos as int]@, x@);
        }
        pos = pos + 1;
    }
    pos
}

/// Sort the flat file list by path in place, so discovery is
/// deterministic whatever order the walk produced: afterwards the list is
/// ordered and holds exactly the same paths.
pub fn sort_paths(paths: &mut Vec<String>)
    ensures
        paths_sorted(final(paths)@),
        final(paths)@.to_multiset() == old(paths)@.to_multiset(),
{
    let ghost original = old(paths)@;
    let mut i: usize = 1;
    while i < paths.len()
        invariant
            paths@.len() == original.len(),
            1 <= i,
            i <= paths@.len() || paths@.len() == 0,
            paths_sorted(paths@.subrange(0, if i < paths@.len() {
                i as int
            } else {
                paths@.len() as int
            })),
            paths@.to_multiset() == original.to_multiset(),
        decreases paths@.len() - i,
    {
        let ghost before = paths@;
        let x = paths.remove(i);
        proof {
            assert(paths@ =~= before.remove(i as int));
            vstd::seq_lib::to_multiset_remove::<String>(before, i as int);
        }
        let pos = find_insert_pos(paths, i, x.as_str());
        let ghost mid = paths@;
        let ghost insert_at = pos as int;
        let ghost xs = x@;
        proof {
            if insert_at < i as int {
                lemma_chars_lt_asym(xs, mid[insert_at]@);
            }
        }
        paths.insert(pos, x);
        proof {
            assert(paths@ =~= mid.insert(insert_at, paths@[insert_at]));
            vstd::seq_lib::to_multiset_insert::<String>(mid, insert_at, paths@[insert_at]);
            // the multiset is restored: remove then insert of the same path
            assert(paths@.to_multiset() == original.to_multiset()) by {
                let xv = paths@[insert_at];
                vstd::multiset::axiom_multiset_ext_equal(
                    paths@.to_multiset(),
                    original.to_multiset(),
                );
                assert forall|e: String|
                    paths@.to_multiset().count(e) == original.to_multiset().count(e) by {
                    vstd::multiset::axiom_multiset_add(
                        mid.to_multiset(),
                        Multiset::singleton(xv),
                        e,
                    );
                    vstd::multiset::axiom_multiset_sub(
                        before.to_multiset(),
                        Multiset::singleton(xv),
                        e,
                    );
                    assert(before.to_multiset().count(e) == original.to_multiset().count(e));
                    if e == xv {
                        vstd::multiset::axiom_multiset_singleton(xv);
                        vstd::seq_lib::to_multiset_contains::<String>(before, e);
                        assert(before[i as int] == e);
                        assert(before.contains(e));
                    } else {
                        vstd::multiset::axiom_multiset_singleton_different(xv, e);
                    }
                }
            }
            // the sorted prefix has grown by one
            assert(paths_sorted(paths@.subrange(0, i + 1))) by {
                let prefix = paths@.subrange(0, i + 1);
                let old_prefix = before.subrange(0, i as int);
                assert forall|a: int, b: int| 0 <= a < b < prefix.len() implies chars_le(
                    #[trigger] prefix[a]@,
                    #[trigger] prefix[b]@,
                ) by {
                    assert(forall|j: int|
                        0 <= j < i ==> #[trigger] mid[j] == old_prefix[j]);
                    if a < insert_at && b == insert_at {
                        assert(prefix[a] == mid[a]);
                    } else if a == insert_at && b > insert_at {
                        assert(prefix[b] == mid[b - 1]);
                        assert(chars_le(xs, mid[insert_at]@));
                        if b - 1 > insert_at {
                            assert(chars_le(mid[insert_at]@, mid[b - 1]@));
                            lemma_chars_le_trans(xs, mid[insert_at]@, mid[b - 1]@);
                        }
                    } else if a < insert_at && b > insert_at {
                        assert(prefix[a] == mid[a]);
                        assert(prefix[b] == mid[b - 1]);
                    } else if b < insert_at {
                        assert(prefix[a] == mid[a]);
                        assert(prefix[b] == mid[b]);
                    } else if a > insert_at {
                        assert(prefix[a] == mid[a - 1]);
                        assert(prefix[b] == mid[b - 1]);
                    }
                }
            }
        }
        i = i + 1;
    }
    proof {
        if paths@.len() > 0 {
            assert(paths@.subrange(0, paths@.len() as int) =~= paths@);
        }
    }
}

/// One candidate file: its path and the leading bytes read for
/// classification.
pub struct CandidateFile {
    pub path: String,
    pub prefix: Vec<u8>,
}

/// One unit of probing work: the file's stable index in the announced
/// list, its path, and its identified format.
#[derive(Clone)]
pub struct DiscoveryTask {
    pub index: usize,
    pub path: String,
    pub format: ImageFormat,
}

/// The tasks a run of candidate files plans to, as plain views:
/// recognized files in order, each as (stable index, path, format). The
/// index is the position its results are delivered at.
pub open spec fn tasks_of(files: Seq<CandidateFile>) -> Seq<(int, Seq<char>, ImageFormat)>
    decreases files.len(),
{
    if files.len() == 0 {
        Seq::empty()
    } else {
        let rest = tasks_of(files.drop_last());
        match identify_spec(files.last().prefix@) {
            Some(fmt) => rest.push((rest.len() as int, files.last().path@, fmt)),
            None => rest,
        }
    }
}

/// The view of a built task list: each task as (index, path, format).
pub open spec fn task_views(ts: Seq<DiscoveryTask>) -> Seq<(int, Seq<char>, ImageFormat)> {
    ts.map(|i: int, t: DiscoveryTask| (t.index as int, t.path@, t.format))
}

/// How many of the candidate files are recognized.
pub open spec fn recognized_count(files: Seq<CandidateFile>) -> int
    decreases files.len(),
{
    if files.len() == 0 {
        0int
    } else {
        recognized_count(files.drop_last()) + if identify_spec(files.last().prefix@) is Some {
            1int
        } else {
            0int
        }
    }
}

/// A plan announces exactly the recognized files: one task each.
pub proof fn lemma_task_count(files: Seq<CandidateFile>)
    ensures
        tasks_of(files).len() == recognized_count(files),
    decreases files.len(),
{
    if files.len() > 0 {
        lemma_task_count(files.drop_last());
    }
}

/// Every task of a plan carries its own position as its index: over a
/// plan of N tasks the indices are exactly 0 to N - 1, in range, with no
/// duplicates and no gaps.
pub proof fn lemma_task_indices(files: Seq<CandidateFile>)
    ensures
        forall|i: int| 0 <= i < tasks_of(files).len() ==> (#[trigger] tasks_of(files)[i]).0 == i,
    decreases files.len(),
{
    if files.len() > 0 {
        lemma_task_indices(files.drop_last());
        let rest = tasks_of(files.drop_last());
        match identify_spec(files.last().prefix@) {
            Some(fmt) => {
                assert(tasks_of(files) == rest.push(
                    (rest.len() as int, files.last().path@, fmt),
                ));
                assert forall|i: int| 0 <= i < tasks_of(files).len() implies (
                #[trigger] tasks_of(files)[i]).0 == i by {
                    if i < rest.len() {
                        assert(tasks_of(files)[i] == rest[i]);
                    }
                }
            },
            None => {
            },
        }
    }
}

/// Classify each candidate in order, dropping unrecognized files, and
/// assign stable indices. The task list's length is the total count
/// announced to the consumer before any metadata arrives.
pub fn build_tasks(files: &Vec<CandidateFile>) -> (r: Vec<DiscoveryTask>)
    ensures
        task_views(r@) == tasks_of(files@),
{
    let n = files.len();
    let mut tasks: Vec<DiscoveryTask> = Vec::new();
    let mut i: usize = 0;
    while i < n
        invariant
            n == files@.len(),
            i <= n,
            task_views(tasks@) == tasks_of(files@.subrange(0, i as int)),
        decreases n - i,
    {
        proof {
            assert(files@.subrange(0, i + 1).drop_last() =~= files@.subrange(0, i as int));
            assert(files@.subrange(0, i + 1).last() == files@[i as int]);
        }
        match identify_format(files[i].prefix.as_slice()) {
            Ok(format) => {
                let index = tasks.len();
                let path = files[i].path.clone();
                tasks.push(DiscoveryTask { index, path, format });
                proof {
                    assert(task_views(tasks@) =~= tasks_of(files@.subrange(0, i + 1)));
                }
            },
            Err(_) => {
                proof {
                    assert(task_views(tasks@) =~= tasks_of(files@.subrange(0, i + 1)));
                }
            },
        }
        i = i + 1;
    }
    proof {
        assert(files@.subrange(0, n as int) =~= files@);
    }
    tasks
}

} // verus!

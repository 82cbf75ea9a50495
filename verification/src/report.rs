//! The deterministic total order on confirmed leaks, and the ordering and
//! deduplication of a confirmed-leak collection under it, so that re-running
//! the pipeline on unchanged inputs yields an identical report.

use vstd::prelude::*;
use vstd::string::StrSliceExecFns;

use crate::information_leak::{ConfirmedLeak, ConfirmedLeakView};
use crate::scanner::confirmed_views;

verus! {

/// Strict lexicographic order on character sequences, by code point.
pub open spec fn seq_char_lt(a: Seq<char>, b: Seq<char>) -> bool
    decreases a.len(),
{
    if b.len() == 0 {
        false
    } else if a.len() == 0 {
        true
    } else if a[0] != b[0] {
        (a[0] as u32) < (b[0] as u32)
    } else {
        seq_char_lt(a.drop_first(), b.drop_first())
    }
}

/// Whether `a` comes strictly before `b` lexicographically.
fn str_lt(a: &str, b: &str) -> (r: bool)
    ensures
        r == seq_char_lt(a@, b@),
{
    let na = a.unicode_len();
    let nb = b.unicode_len();
    let mut i: usize = 0;
    proof {
        assert(a@.skip(0) =~= a@);
        assert(b@.skip(0) =~= b@);
    }
    while i < na && i < nb
        invariant
            i <= na,
            i <= nb,
            na == a@.len(),
            nb == b@.len(),
            seq_char_lt(a@, b@) == seq_char_lt(a@.skip(i as int), b@.skip(i as int)),
        decreases na - i,
    {
        let ca = a.get_char(i);
        let cb = b.get_char(i);
        proof {
            assert(a@.skip(i as int)[0] == ca);
            assert(b@.skip(i as int)[0] == cb);
        }
        if ca != cb {
            return (ca as u32) < (cb as u32);
        }
        proof {
            assert(a@.skip(i as int).drop_first() =~= a@.skip(i + 1));
            assert(b@.skip(i as int).drop_first() =~= b@.skip(i + 1));
        }
        i = i + 1;
    }
    if i < nb {
        proof {
            assert(a@.skip(i as int).len() == 0);
            assert(b@.skip(i as int).len() > 0);
        }
        true
    } else {
        proof {
            assert(b@.skip(i as int).len() == 0);
        }
        false
    }
}

/// The total order confirmed leaks are reported in: literal text, then
/// binary offset, then binary path, then declaring file, then declaring
/// line. A pure function of the two leaks' fields.
pub open spec fn spec_leak_le(a: ConfirmedLeakView, b: ConfirmedLeakView) -> bool {
    if a.leaked_information != b.leaked_information {
        seq_char_lt(a.leaked_information, b.leaked_information)
    } else if a.offset != b.offset {
        a.offset < b.offset
    } else if a.binary_file != b.binary_file {
        seq_char_lt(a.binary_file, b.binary_file)
    } else if a.source_file != b.source_file {
        seq_char_lt(a.source_file, b.source_file)
    } else {
        a.source_line <= b.source_line
    }
}

/// Whether `a` comes at or before `b` in the reporting order.
pub fn confirmed_leak_le(a: &ConfirmedLeak, b: &ConfirmedLeak) -> (r: bool)
    ensures
        r == spec_leak_le(a@, b@),
{
    if !a.leaked_information.eq(&b.leaked_information) {
        str_lt(a.leaked_information.as_str(), b.leaked_information.as_str())
    } else if a.location.binary.offset != b.location.binary.offset {
        a.location.binary.offset < b.location.binary.offset
    } else if !a.location.binary.file.eq(&b.location.binary.file) {
        str_lt(a.location.binary.file.as_str(), b.location.binary.file.as_str())
    } else if !a.location.source.file.eq(&b.location.source.file) {
        str_lt(a.location.source.file.as_str(), b.location.source.file.as_str())
    } else {
        a.location.source.line <= b.location.source.line
    }
}

/// Whether two confirmed leaks carry the same fields.
pub fn confirmed_leak_eq(a: &ConfirmedLeak, b: &ConfirmedLeak) -> (r: bool)
    ensures
        r == (a@ == b@),
{
    let r = a.leaked_information.eq(&b.leaked_information)
        && a.location.source.file.eq(&b.location.source.file)
        && a.location.source.line == b.location.source.line
        && a.location.binary.file.eq(&b.location.binary.file)
        && a.location.binary.offset == b.location.binary.offset;
    proof {
        if r {
            assert(a@ == b@);
        }
    }
    r
}

/// A field-for-field copy of a confirmed leak.
fn clone_confirmed_leak(leak: &ConfirmedLeak) -> (r: ConfirmedLeak)
    ensures
        r@ == leak@,
{
    ConfirmedLeak {
        leaked_information: leak.leaked_information.clone(),
        location: crate::information_leak::LeakLocation {
            source: crate::information_leak::SourceLocation {
                file: leak.location.source.file.clone(),
                line: leak.location.source.line,
            },
            binary: crate::information_leak::BinaryLocation {
                file: leak.location.binary.file.clone(),
                offset: leak.location.binary.offset,
            },
        },
    }
}

/// Insertion of one leak into an ordered sequence, before the first element
/// it precedes or equals.
pub open spec fn spec_insert_sorted(
    sorted: Seq<ConfirmedLeakView>,
    x: ConfirmedLeakView,
) -> Seq<ConfirmedLeakView>
    decreases sorted.len(),
{
    if sorted.len() == 0 {
        seq![x]
    } else if spec_leak_le(x, sorted[0]) {
        seq![x] + sorted
    } else {
        seq![sorted[0]] + spec_insert_sorted(sorted.drop_first(), x)
    }
}

/// The insertion sort of a confirmed-leak sequence under the reporting
/// order: a pure function of the input sequence.
pub open spec fn spec_sort(s: Seq<ConfirmedLeakView>) -> Seq<ConfirmedLeakView>
    decreases s.len(),
{
    if s.len() == 0 {
        Seq::empty()
    } else {
        spec_insert_sorted(spec_sort(s.drop_last()), s.last())
    }
}

/// Inserting at the first position whose element `x` precedes or equals
/// splits the sequence there.
proof fn lemma_insert_at(sorted: Seq<ConfirmedLeakView>, x: ConfirmedLeakView, j: int)
    requires
        0 <= j <= sorted.len(),
        forall|k: int| 0 <= k < j ==> !spec_leak_le(x, #[trigger] sorted[k]),
        j < sorted.len() ==> spec_leak_le(x, sorted[j]),
    ensures
        spec_insert_sorted(sorted, x) == sorted.subrange(0, j) + seq![x] + sorted.subrange(
            j,
            sorted.len() as int,
        ),
    decreases j,
{
    if j == 0 {
        if sorted.len() == 0 {
            assert(spec_insert_sorted(sorted, x) =~= sorted.subrange(0, 0) + seq![x]
                + sorted.subrange(0, 0));
        } else {
            assert(spec_leak_le(x, sorted[0]));
            assert(sorted.subrange(0, 0) + seq![x] + sorted.subrange(0, sorted.len() as int)
                =~= seq![x] + sorted);
        }
    } else {
        assert(!spec_leak_le(x, sorted[0]));
        let tail = sorted.drop_first();
        assert forall|k: int| 0 <= k < j - 1 implies !spec_leak_le(x, #[trigger] tail[k]) by {
            assert(tail[k] == sorted[k + 1]);
        }
        if j - 1 < tail.len() {
            assert(tail[j - 1] == sorted[j]);
        }
        lemma_insert_at(tail, x, j - 1);
        assert(sorted.subrange(0, j) + seq![x] + sorted.subrange(j, sorted.len() as int)
            =~= seq![sorted[0]] + (tail.subrange(0, j - 1) + seq![x] + tail.subrange(
            j - 1,
            tail.len() as int,
        )));
    }
}

/// Orders a confirmed-leak collection under the reporting order; which
/// ordered sequence comes out is a pure function of the input sequence.
pub fn sort_confirmed_leaks(leaks: Vec<ConfirmedLeak>) -> (r: Vec<ConfirmedLeak>)
    ensures
        confirmed_views(r@) == spec_sort(confirmed_views(leaks@)),
{
    let ghost vs = confirmed_views(leaks@);
    let mut rem = leaks;
    let mut out: Vec<ConfirmedLeak> = Vec::new();
    let mut i: usize = 0;
    let n = rem.len();
    proof {
        assert(vs.take(0) =~= Seq::<ConfirmedLeakView>::empty());
        assert(confirmed_views(out@) =~= spec_sort(vs.take(0)));
    }
    while i < n
        invariant
            i <= n,
            n == vs.len(),
            rem@ =~= leaks@.skip(i as int),
            vs == confirmed_views(leaks@),
            confirmed_views(out@) == spec_sort(vs.take(i as int)),
        decreases n - i,
    {
        let x = rem.remove(0);
        proof {
            assert(x == leaks@[i as int]);
            assert(rem@ =~= leaks@.skip(i + 1));
            assert(vs.take(i + 1).drop_last() =~= vs.take(i as int));
            assert(vs.take(i + 1).last() == x@);
        }
        let mut j: usize = 0;
        while j < out.len() && !confirmed_leak_le(&x, &out[j])
            invariant
                j <= out@.len(),
                vs == confirmed_views(leaks@),
                confirmed_views(out@) == spec_sort(vs.take(i as int)),
                forall|k: int|
                    0 <= k < j ==> !spec_leak_le(x@, #[trigger] confirmed_views(out@)[k]),
            decreases out@.len() - j,
        {
            j = j + 1;
        }
        let ghost before = out@;
        proof {
            lemma_insert_at(confirmed_views(before), x@, j as int);
        }
        out.insert(j, x);
        proof {
            assert(confirmed_views(out@) =~= confirmed_views(before).subrange(0, j as int)
                + seq![x@] + confirmed_views(before).subrange(
                j as int,
                confirmed_views(before).len() as int,
            ));
            assert(confirmed_views(out@) == spec_sort(vs.take(i + 1)));
        }
        i = i + 1;
    }
    proof {
        assert(vs.take(n as int) =~= vs);
    }
    out
}

/// The ordered sequence with runs of equal leaks collapsed to one.
pub open spec fn spec_dedup_adjacent(s: Seq<ConfirmedLeakView>) -> Seq<ConfirmedLeakView>
    decreases s.len(),
{
    if s.len() == 0 {
        Seq::empty()
    } else {
        let rest = spec_dedup_adjacent(s.drop_last());
        if s.len() >= 2 && s.last() == s[s.len() - 2] {
            rest
        } else {
            rest.push(s.last())
        }
    }
}

/// Collapses each run of equal leaks of an ordered collection to one leak.
pub fn dedup_confirmed_leaks(sorted: &Vec<ConfirmedLeak>) -> (r: Vec<ConfirmedLeak>)
    ensures
        confirmed_views(r@) == spec_dedup_adjacent(confirmed_views(sorted@)),
{
    let ghost vs = confirmed_views(sorted@);
    let mut out: Vec<ConfirmedLeak> = Vec::new();
    let mut i: usize = 0;
    let n = sorted.len();
    proof {
        assert(vs.take(0) =~= Seq::<ConfirmedLeakView>::empty());
        assert(confirmed_views(out@) =~= spec_dedup_adjacent(vs.take(0)));
    }
    while i < n
        invariant
            i <= n,
            n == vs.len(),
            vs == confirmed_views(sorted@),
            confirmed_views(out@) == spec_dedup_adjacent(vs.take(i as int)),
        decreases n - i,
    {
        proof {
            assert(vs.take(i + 1).drop_last() =~= vs.take(i as int));
            assert(vs.take(i + 1).last() == vs[i as int]);
        }
        let duplicate = i > 0 && confirmed_leak_eq(&sorted[i], &sorted[i - 1]);
        if !duplicate {
            out.push(clone_confirmed_leak(&sorted[i]));
        }
        proof {
            if i > 0 {
                assert(vs.take(i + 1)[i - 1] == vs[i - 1]);
            }
            assert(confirmed_views(out@) =~= spec_dedup_adjacent(vs.take(i + 1)));
        }
        i = i + 1;
    }
    proof {
        assert(vs.take(n as int) =~= vs);
    }
    out
}

} // verus!

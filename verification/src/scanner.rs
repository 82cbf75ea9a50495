//! The binary scanner: exact-match search of each candidate's byte pattern
//! over the binary's contents, reporting the lowest matching offset.

use vstd::prelude::*;

use crate::information_leak::{
    BinaryLocation, ConfirmedLeak, ConfirmedLeakView, InformationLeakDescription, LeakLocation,
    LeakView, SourceLocation,
};
use crate::catalog::leak_views;

verus! {

/// True when the window of `haystack` starting at `at` equals `needle`.
pub open spec fn matches_at(haystack: Seq<u8>, needle: Seq<u8>, at: int) -> bool {
    &&& 0 <= at
    &&& at + needle.len() <= haystack.len()
    &&& haystack.subrange(at, at + needle.len() as int) == needle
}

/// The lowest offset at or after `from` whose window equals `needle`, or
/// `None` when no window from there on matches.
pub open spec fn first_match_from(haystack: Seq<u8>, needle: Seq<u8>, from: int) -> Option<int>
    recommends
        0 <= from,
    decreases haystack.len() + 1 - from,
{
    if from < 0 || from + needle.len() > haystack.len() {
        None
    } else if matches_at(haystack, needle, from) {
        Some(from)
    } else {
        first_match_from(haystack, needle, from + 1)
    }
}

/// The scanner's verdict on one pattern: the lowest matching offset, with an
/// empty pattern defined to match nothing.
pub open spec fn spec_find_pattern(haystack: Seq<u8>, needle: Seq<u8>) -> Option<int> {
    if needle.len() == 0 {
        None
    } else {
        first_match_from(haystack, needle, 0)
    }
}

/// When a window matches at `i` and none matches before it, the search from
/// any point at or before `i` finds exactly `i`.
proof fn lemma_first_match_found(haystack: Seq<u8>, needle: Seq<u8>, from: int, i: int)
    requires
        0 <= from <= i,
        matches_at(haystack, needle, i),
        forall|j: int| from <= j < i ==> !matches_at(haystack, needle, j),
    ensures
        first_match_from(haystack, needle, from) == Some(i),
    decreases i - from,
{
    if from < i {
        lemma_first_match_found(haystack, needle, from + 1, i);
    }
}

/// When no window matches at or after `from`, the search from there fails.
proof fn lemma_first_match_none(haystack: Seq<u8>, needle: Seq<u8>, from: int)
    requires
        0 <= from,
        forall|j: int| from <= j ==> !matches_at(haystack, needle, j),
    ensures
        first_match_from(haystack, needle, from) is None,
    decreases haystack.len() + 1 - from,
{
    if from + needle.len() <= haystack.len() {
        lemma_first_match_none(haystack, needle, from + 1);
    }
}

/// Whether the window at `at` equals the needle.
fn window_matches(haystack: &Vec<u8>, needle: &Vec<u8>, at: usize) -> (r: bool)
    requires
        at + needle@.len() <= haystack@.len(),
    ensures
        r == matches_at(haystack@, needle@, at as int),
{
    let hl = haystack.len();
    let mut k: usize = 0;
    while k < needle.len()
        invariant
            k <= needle@.len(),
            hl == haystack@.len(),
            at + needle@.len() <= haystack@.len(),
            forall|t: int| 0 <= t < k ==> haystack@[at + t] == needle@[t],
        decreases needle@.len() - k,
    {
        if haystack[at + k] != needle[k] {
            proof {
                assert(haystack@.subrange(at as int, at + needle@.len() as int)[k as int]
                    != needle@[k as int]);
            }
            return false;
        }
        k = k + 1;
    }
    proof {
        assert(haystack@.subrange(at as int, at + needle@.len() as int) =~= needle@);
    }
    true
}

/// Exact-match sliding-window search: the lowest offset whose window equals
/// `needle`, `None` when no window matches or the needle is empty.
pub fn find_pattern(haystack: &Vec<u8>, needle: &Vec<u8>) -> (r: Option<usize>)
    ensures
        r matches Some(i) ==> spec_find_pattern(haystack@, needle@) == Some(i as int),
        r matches Some(i) ==> matches_at(haystack@, needle@, i as int) && forall|j: int|
            0 <= j < i ==> !matches_at(haystack@, needle@, j),
        r is None ==> spec_find_pattern(haystack@, needle@) is None,
        r is None ==> forall|j: int| needle@.len() > 0 ==> !matches_at(haystack@, needle@, j),
        needle@.len() == 0 ==> r is None,
{
    if needle.len() == 0 {
        return None;
    }
    if needle.len() > haystack.len() {
        proof {
            lemma_first_match_none(haystack@, needle@, 0);
        }
        return None;
    }
    let hl = haystack.len();
    let last = hl - needle.len();
    let mut i: usize = 0;
    while i <= last
        invariant
            needle@.len() > 0,
            needle@.len() <= haystack@.len(),
            hl == haystack@.len(),
            last == haystack@.len() - needle@.len(),
            i <= last + 1,
            forall|j: int| 0 <= j < i ==> !matches_at(haystack@, needle@, j),
        decreases last + 1 - i,
    {
        if window_matches(haystack, needle, i) {
            proof {
                lemma_first_match_found(haystack@, needle@, 0, i as int);
            }
            return Some(i);
        }
        i = i + 1;
    }
    proof {
        assert(forall|j: int| j > last ==> !matches_at(haystack@, needle@, j));
        lemma_first_match_none(haystack@, needle@, 0);
    }
    None
}

/// The confirmed leaks a candidate sequence yields against a binary, in
/// candidate order: one per candidate whose non-empty byte pattern occurs,
/// carrying the lowest matching offset.
pub open spec fn spec_scan(
    leaks: Seq<LeakView>,
    binary_file: Seq<char>,
    data: Seq<u8>,
) -> Seq<ConfirmedLeakView>
    decreases leaks.len(),
{
    if leaks.len() == 0 {
        Seq::empty()
    } else {
        let rest = spec_scan(leaks.drop_last(), binary_file, data);
        let l = leaks.last();
        match spec_find_pattern(data, l.bytes) {
            Some(offset) => rest.push(
                ConfirmedLeakView {
                    leaked_information: l.leaked_information,
                    source_file: l.file,
                    source_line: l.line,
                    binary_file: binary_file,
                    offset: offset as u64,
                },
            ),
            None => rest,
        }
    }
}

/// The views of a sequence of confirmed leaks.
pub open spec fn confirmed_views(s: Seq<ConfirmedLeak>) -> Seq<ConfirmedLeakView> {
    Seq::new(s.len(), |i: int| s[i]@)
}

/// Scans the binary's bytes for every candidate's pattern, in candidate
/// order: a candidate with a non-empty pattern that occurs in the binary
/// yields one confirmed leak at the lowest matching offset; a candidate
/// whose pattern is absent or empty yields none.
pub fn find_leaks_in_binary(
    binary_file_path: &String,
    binary_data: &Vec<u8>,
    potential_leaks: &Vec<InformationLeakDescription>,
) -> (r: Vec<ConfirmedLeak>)
    ensures
        confirmed_views(r@) == spec_scan(
            leak_views(potential_leaks@),
            binary_file_path@,
            binary_data@,
        ),
{
    let ghost vs = leak_views(potential_leaks@);
    let mut out: Vec<ConfirmedLeak> = Vec::new();
    let mut i: usize = 0;
    let n = potential_leaks.len();
    proof {
        assert(vs.take(0) =~= Seq::<LeakView>::empty());
        assert(confirmed_views(out@) =~= spec_scan(vs.take(0), binary_file_path@, binary_data@));
    }
    while i < n
        invariant
            i <= n,
            n == vs.len(),
            vs == leak_views(potential_leaks@),
            confirmed_views(out@) == spec_scan(vs.take(i as int), binary_file_path@, binary_data@),
        decreases n - i,
    {
        proof {
            assert(vs.take(i + 1).drop_last() =~= vs.take(i as int));
            assert(vs.take(i + 1).last() == vs[i as int]);
            assert(vs[i as int] == potential_leaks@[i as int]@);
        }
        let leak = &potential_leaks[i];
        match find_pattern(binary_data, &leak.bytes) {
            Some(offset) => {
                let confirmed = ConfirmedLeak {
                    leaked_information: leak.leaked_information.clone(),
                    location: LeakLocation {
                        source: SourceLocation {
                            file: leak.declaration_metadata.0.clone(),
                            line: leak.declaration_metadata.1,
                        },
                        binary: BinaryLocation {
                            file: binary_file_path.clone(),
                            offset: offset as u64,
                        },
                    },
                };
                proof {
                    assert(confirmed@ == spec_scan(
                        vs.take(i + 1),
                        binary_file_path@,
                        binary_data@,
                    ).last());
                }
                out.push(confirmed);
                proof {
                    assert(confirmed_views(out@) =~= spec_scan(
                        vs.take(i + 1),
                        binary_file_path@,
                        binary_data@,
                    ));
                }
            },
            None => {
                proof {
                    assert(confirmed_views(out@) =~= spec_scan(
                        vs.take(i + 1),
                        binary_file_path@,
                        binary_data@,
                    ));
                }
            },
        }
        i = i + 1;
    }
    proof {
        assert(vs.take(n as int) =~= vs);
    }
    out
}

} // verus!

//! Catalog construction: turning raw literal-token occurrences into the
//! deduplicated, suppression-filtered set of candidate leaks.

use vstd::prelude::*;

use crate::information_leak::{leak_well_formed, InformationLeakDescription, LeakView};
use crate::suppressions::{
    artifact_suppressed, file_suppressed, spec_artifact_suppressed, spec_file_suppressed,
    Suppressions,
};
use crate::transcode::{spec_literal_bytes, string_literal_to_bytes, TranscodeError};

verus! {

/// Mathematical value of a [`LiteralOccurrence`].
pub struct OccView {
    pub text: Seq<char>,
    pub file: Seq<char>,
    pub line: u32,
    pub in_system_header: bool,
}

/// One literal-token occurrence, as the AST collaborator yields it: raw
/// lexical text, declaring file path, declaring line, and whether the
/// declaration sits in a system header.
pub struct LiteralOccurrence {
    pub text: String,
    pub file: String,
    pub line: u32,
    pub in_system_header: bool,
}

impl View for LiteralOccurrence {
    type V = OccView;

    open spec fn view(&self) -> OccView {
        OccView {
            text: self.text@,
            file: self.file@,
            line: self.line,
            in_system_header: self.in_system_header,
        }
    }
}

/// Catalog construction switches.
#[derive(Clone, Copy)]
pub struct CatalogConfig {
    /// When false, occurrences in system headers are discarded.
    pub include_system_headers: bool,
    /// When true, only the first admitted occurrence of a literal text is
    /// retained.
    pub merge_duplicate_declarations: bool,
}

/// The views of a sequence of occurrences.
pub open spec fn occ_views(s: Seq<LiteralOccurrence>) -> Seq<OccView> {
    Seq::new(s.len(), |i: int| s[i]@)
}

/// The views of a sequence of candidate leaks.
pub open spec fn leak_views(s: Seq<InformationLeakDescription>) -> Seq<LeakView> {
    Seq::new(s.len(), |i: int| s[i]@)
}

/// Whether one occurrence is admitted into the catalog: it survives the
/// system-header rule, neither its file nor its text is suppressed, and its
/// text transcodes.
pub open spec fn spec_admit(
    occ: OccView,
    sup: Option<Suppressions>,
    include_system_headers: bool,
) -> bool {
    &&& include_system_headers || !occ.in_system_header
    &&& !spec_file_suppressed(sup, occ.file)
    &&& spec_literal_bytes(occ.text) is Ok
    &&& !spec_artifact_suppressed(sup, occ.text)
}

/// The candidate leak an admitted occurrence yields.
pub open spec fn leak_of(occ: OccView) -> LeakView {
    LeakView {
        leaked_information: occ.text,
        bytes: match spec_literal_bytes(occ.text) {
            Ok(b) => b,
            Err(_) => Seq::empty(),
        },
        file: occ.file,
        line: occ.line,
    }
}

/// The admitted occurrences' leaks, one per admitted occurrence, in
/// encounter order.
pub open spec fn spec_admitted(
    occs: Seq<OccView>,
    sup: Option<Suppressions>,
    include_system_headers: bool,
) -> Seq<LeakView>
    decreases occs.len(),
{
    if occs.len() == 0 {
        Seq::empty()
    } else {
        let rest = spec_admitted(occs.drop_last(), sup, include_system_headers);
        if spec_admit(occs.last(), sup, include_system_headers) {
            rest.push(leak_of(occs.last()))
        } else {
            rest
        }
    }
}

/// Whether some leak of the sequence carries the given literal text.
pub open spec fn catalog_contains_text(s: Seq<LeakView>, text: Seq<char>) -> bool {
    exists|i: int| 0 <= i < s.len() && (#[trigger] s[i]).leaked_information == text
}

/// Keeps, per literal text, only the first leak carrying it.
pub open spec fn spec_dedup_first(s: Seq<LeakView>) -> Seq<LeakView>
    decreases s.len(),
{
    if s.len() == 0 {
        Seq::empty()
    } else {
        let rest = spec_dedup_first(s.drop_last());
        if catalog_contains_text(rest, s.last().leaked_information) {
            rest
        } else {
            rest.push(s.last())
        }
    }
}

/// The catalog an occurrence sequence yields: admitted leaks in encounter
/// order, deduplicated by literal text (first admitted wins) when merging
/// is enabled.
pub open spec fn spec_build_catalog(
    occs: Seq<OccView>,
    sup: Option<Suppressions>,
    config: CatalogConfig,
) -> Seq<LeakView> {
    let admitted = spec_admitted(occs, sup, config.include_system_headers);
    if config.merge_duplicate_declarations {
        spec_dedup_first(admitted)
    } else {
        admitted
    }
}

/// Admitting one more occurrence extends the admitted sequence by its leak
/// exactly when it is admitted.
proof fn lemma_admitted_step(
    occs: Seq<OccView>,
    i: int,
    sup: Option<Suppressions>,
    include_system_headers: bool,
)
    requires
        0 <= i < occs.len(),
    ensures
        spec_admitted(occs.take(i + 1), sup, include_system_headers) == if spec_admit(
            occs[i],
            sup,
            include_system_headers,
        ) {
            spec_admitted(occs.take(i), sup, include_system_headers).push(leak_of(occs[i]))
        } else {
            spec_admitted(occs.take(i), sup, include_system_headers)
        },
{
    assert(occs.take(i + 1).drop_last() =~= occs.take(i));
    assert(occs.take(i + 1).last() == occs[i]);
}

/// Deduplicating one more leak keeps it exactly when its text is new.
proof fn lemma_dedup_step(s: Seq<LeakView>, x: LeakView)
    ensures
        spec_dedup_first(s.push(x)) == if catalog_contains_text(
            spec_dedup_first(s),
            x.leaked_information,
        ) {
            spec_dedup_first(s)
        } else {
            spec_dedup_first(s).push(x)
        },
{
    assert(s.push(x).drop_last() =~= s);
    assert(s.push(x).last() == x);
}

/// Whether the already-built catalog holds a leak with the given text.
fn catalog_contains(catalog: &Vec<InformationLeakDescription>, text: &String) -> (r: bool)
    ensures
        r == catalog_contains_text(leak_views(catalog@), text@),
{
    let mut i: usize = 0;
    while i < catalog.len()
        invariant
            i <= catalog@.len(),
            forall|j: int|
                0 <= j < i ==> (#[trigger] leak_views(catalog@)[j]).leaked_information != text@,
        decreases catalog@.len() - i,
    {
        if catalog[i].leaked_information.eq(text) {
            proof {
                assert(leak_views(catalog@)[i as int].leaked_information == text@);
            }
            return true;
        }
        proof {
            assert(leak_views(catalog@)[i as int].leaked_information != text@);
        }
        i = i + 1;
    }
    false
}

/// Builds the candidate-leak catalog from the occurrences, in encounter
/// order: occurrences in system headers are discarded when so configured,
/// occurrences in suppressed files, with suppressed texts or with
/// untranscodable texts are discarded, and, when merging is enabled, only
/// the first admitted occurrence of each literal text is retained.
pub fn build_catalog(
    occurrences: Vec<LiteralOccurrence>,
    config: CatalogConfig,
    suppressions: &Option<Suppressions>,
) -> (r: Vec<InformationLeakDescription>)
    ensures
        leak_views(r@) == spec_build_catalog(occ_views(occurrences@), *suppressions, config),
{
    let ghost vs = occ_views(occurrences@);
    let mut occs = occurrences;
    let mut out: Vec<InformationLeakDescription> = Vec::new();
    let mut i: usize = 0;
    let n = occs.len();
    proof {
        assert(vs.take(0) =~= Seq::<OccView>::empty());
        assert(leak_views(out@) =~= spec_build_catalog(vs.take(0), *suppressions, config));
    }
    while i < n
        invariant
            i <= n,
            n == vs.len(),
            occs@ =~= occurrences@.skip(i as int),
            vs == occ_views(occurrences@),
            leak_views(out@) == spec_build_catalog(vs.take(i as int), *suppressions, config),
        decreases n - i,
    {
        let occ = occs.remove(0);
        proof {
            assert(occ == occurrences@[i as int]);
            assert(occs@ =~= occurrences@.skip(i + 1));
            assert(vs.take(i + 1).drop_last() =~= vs.take(i as int));
            assert(vs.take(i + 1).last() == occ@);
        }
        let ghost ov = occ@;
        let mut keep = config.include_system_headers || !occ.in_system_header;
        if keep {
            keep = !file_suppressed(suppressions, occ.file.as_str());
        }
        let mut bytes: Vec<u8> = Vec::new();
        let mut transcoded = false;
        if keep {
            match string_literal_to_bytes(occ.text.as_str()) {
                Ok(b) => {
                    bytes = b;
                    transcoded = true;
                },
                Err(_) => {
                    keep = false;
                },
            }
        }
        if keep {
            keep = !artifact_suppressed(suppressions, &occ.text);
        }
        proof {
            assert(ov == vs[i as int]);
            assert(keep == spec_admit(ov, *suppressions, config.include_system_headers));
            assert(keep ==> spec_literal_bytes(ov.text) == Ok::<Seq<u8>, TranscodeError>(bytes@));
            lemma_admitted_step(vs, i as int, *suppressions, config.include_system_headers);
        }
        let ghost adm_i = spec_admitted(
            vs.take(i as int),
            *suppressions,
            config.include_system_headers,
        );
        if keep {
            proof {
                lemma_dedup_step(adm_i, leak_of(ov));
            }
            let skip_duplicate = config.merge_duplicate_declarations && catalog_contains(
                &out,
                &occ.text,
            );
            if !skip_duplicate {
                let leak = InformationLeakDescription {
                    leaked_information: occ.text,
                    bytes,
                    declaration_metadata: (occ.file, occ.line),
                };
                proof {
                    assert(leak@ == leak_of(ov));
                }
                out.push(leak);
                proof {
                    assert(leak_views(out@) =~= leak_views(out@.drop_last()).push(leak_of(ov)));
                    assert(leak_views(out@) == spec_build_catalog(
                        vs.take(i + 1),
                        *suppressions,
                        config,
                    ));
                }
            } else {
                proof {
                    assert(leak_views(out@) == spec_build_catalog(
                        vs.take(i + 1),
                        *suppressions,
                        config,
                    ));
                }
            }
        } else {
            proof {
                assert(leak_views(out@) == spec_build_catalog(
                    vs.take(i + 1),
                    *suppressions,
                    config,
                ));
            }
        }
        i = i + 1;
    }
    proof {
        assert(vs.take(n as int) =~= vs);
    }
    out
}

/// The leaks that survive artifact suppression, in their given order.
pub open spec fn spec_filter_suppressed_artifacts(
    leaks: Seq<LeakView>,
    sup: Option<Suppressions>,
) -> Seq<LeakView>
    decreases leaks.len(),
{
    if leaks.len() == 0 {
        Seq::empty()
    } else {
        let rest = spec_filter_suppressed_artifacts(leaks.drop_last(), sup);
        if spec_artifact_suppressed(sup, leaks.last().leaked_information) {
            rest
        } else {
            rest.push(leaks.last())
        }
    }
}

/// Drops every candidate leak whose literal text equals a suppressed
/// artifact; the order of the kept leaks is unchanged.
pub fn filter_suppressed_artifacts(
    potential_leaks: Vec<InformationLeakDescription>,
    suppressions: &Option<Suppressions>,
) -> (r: Vec<InformationLeakDescription>)
    ensures
        leak_views(r@) == spec_filter_suppressed_artifacts(
            leak_views(potential_leaks@),
            *suppressions,
        ),
{
    let ghost vs = leak_views(potential_leaks@);
    let mut leaks = potential_leaks;
    let mut out: Vec<InformationLeakDescription> = Vec::new();
    let mut i: usize = 0;
    let n = leaks.len();
    proof {
        assert(vs.take(0) =~= Seq::<LeakView>::empty());
    }
    while i < n
        invariant
            i <= n,
            n == vs.len(),
            leaks@ =~= potential_leaks@.skip(i as int),
            vs == leak_views(potential_leaks@),
            leak_views(out@) == spec_filter_suppressed_artifacts(vs.take(i as int), *suppressions),
        decreases n - i,
    {
        let leak = leaks.remove(0);
        proof {
            assert(leak == potential_leaks@[i as int]);
            assert(leaks@ =~= potential_leaks@.skip(i + 1));
            assert(vs.take(i + 1).drop_last() =~= vs.take(i as int));
            assert(vs.take(i + 1).last() == leak@);
        }
        if !artifact_suppressed(suppressions, &leak.leaked_information) {
            out.push(leak);
        }
        proof {
            assert(leak_views(out@) =~= spec_filter_suppressed_artifacts(
                vs.take(i + 1),
                *suppressions,
            ));
        }
        i = i + 1;
    }
    proof {
        assert(vs.take(n as int) =~= vs);
    }
    out
}

/// Every leak of the admitted sequence is well formed and unsuppressed: its
/// bytes are the transcoding of its text, its declaring file matches no
/// suppressed file pattern, and its text equals no suppressed artifact. In
/// particular an occurrence in a suppressed file, or with a suppressed
/// text, contributes no leak.
pub proof fn lemma_admitted_sound(
    occs: Seq<OccView>,
    sup: Option<Suppressions>,
    include_system_headers: bool,
)
    ensures
        forall|j: int|
            0 <= j < spec_admitted(occs, sup, include_system_headers).len() ==> {
                let leak = #[trigger] spec_admitted(occs, sup, include_system_headers)[j];
                &&& leak_well_formed(leak)
                &&& !spec_file_suppressed(sup, leak.file)
                &&& !spec_artifact_suppressed(sup, leak.leaked_information)
            },
    decreases occs.len(),
{
    if occs.len() > 0 {
        let p = occs.drop_last();
        let x = occs.last();
        lemma_admitted_sound(p, sup, include_system_headers);
        let rest = spec_admitted(p, sup, include_system_headers);
        let adm = spec_admitted(occs, sup, include_system_headers);
        assert forall|j: int| 0 <= j < adm.len() implies {
            let leak = #[trigger] adm[j];
            &&& leak_well_formed(leak)
            &&& !spec_file_suppressed(sup, leak.file)
            &&& !spec_artifact_suppressed(sup, leak.leaked_information)
        } by {
            if spec_admit(x, sup, include_system_headers) {
                assert(adm == rest.push(leak_of(x)));
                if j < rest.len() {
                    assert(adm[j] == rest[j]);
                } else {
                    assert(adm[j] == leak_of(x));
                    assert(spec_literal_bytes(x.text) is Ok);
                    match spec_literal_bytes(x.text) {
                        Ok(b) => {
                            assert(leak_of(x).bytes == b);
                        },
                        Err(_) => {
                            assert(false);
                        },
                    }
                }
            } else {
                assert(adm == rest);
                assert(adm[j] == rest[j]);
            }
        }
    }
}

/// With merging disabled every admitted occurrence stays a distinct catalog
/// entry: the catalog is the admitted sequence itself.
pub proof fn lemma_no_merge_keeps_every_admitted(
    occs: Seq<OccView>,
    sup: Option<Suppressions>,
    config: CatalogConfig,
)
    requires
        !config.merge_duplicate_declarations,
    ensures
        spec_build_catalog(occs, sup, config) == spec_admitted(
            occs,
            sup,
            config.include_system_headers,
        ),
{
}

/// Deduplication keeps exactly the literal texts of its input.
pub proof fn lemma_dedup_keys(s: Seq<LeakView>)
    ensures
        forall|text: Seq<char>|
            #[trigger] catalog_contains_text(spec_dedup_first(s), text) <==> catalog_contains_text(
                s,
                text,
            ),
    decreases s.len(),
{
    if s.len() == 0 {
        assert forall|text: Seq<char>| #[trigger]
            catalog_contains_text(spec_dedup_first(s), text) implies catalog_contains_text(
            s,
            text,
        ) by {}
    } else {
        let p = s.drop_last();
        let x = s.last();
        let rest = spec_dedup_first(p);
        lemma_dedup_keys(p);
        assert forall|text: Seq<char>| #[trigger]
            catalog_contains_text(spec_dedup_first(s), text) implies catalog_contains_text(
            s,
            text,
        ) by {
            let d = spec_dedup_first(s);
            let i = choose|i: int| 0 <= i < d.len() && (#[trigger] d[i]).leaked_information == text;
            if catalog_contains_text(rest, x.leaked_information) {
                assert(d == rest);
                assert(catalog_contains_text(rest, text));
                assert(catalog_contains_text(p, text));
                let k = choose|k: int|
                    0 <= k < p.len() && (#[trigger] p[k]).leaked_information == text;
                assert(s[k].leaked_information == text);
            } else {
                assert(d == rest.push(x));
                if i < rest.len() {
                    assert(rest[i].leaked_information == text);
                    assert(catalog_contains_text(rest, text));
                    assert(catalog_contains_text(p, text));
                    let k = choose|k: int|
                        0 <= k < p.len() && (#[trigger] p[k]).leaked_information == text;
                    assert(s[k].leaked_information == text);
                } else {
                    assert(d[i] == x);
                    assert(s[s.len() - 1].leaked_information == text);
                }
            }
        }
        assert forall|text: Seq<char>|
            catalog_contains_text(s, text) implies #[trigger] catalog_contains_text(
            spec_dedup_first(s),
            text,
        ) by {
            let d = spec_dedup_first(s);
            let i = choose|i: int| 0 <= i < s.len() && (#[trigger] s[i]).leaked_information == text;
            if i < p.len() {
                assert(p[i].leaked_information == text);
                assert(catalog_contains_text(p, text));
                assert(catalog_contains_text(rest, text));
                let k = choose|k: int|
                    0 <= k < rest.len() && (#[trigger] rest[k]).leaked_information == text;
                if catalog_contains_text(rest, x.leaked_information) {
                    assert(d == rest);
                    assert(d[k].leaked_information == text);
                } else {
                    assert(d == rest.push(x));
                    assert(d[k].leaked_information == text);
                }
            } else {
                assert(s[i] == x);
                if catalog_contains_text(rest, x.leaked_information) {
                    assert(d == rest);
                    let k = choose|k: int|
                        0 <= k < rest.len() && (#[trigger] rest[k]).leaked_information
                            == x.leaked_information;
                    assert(d[k].leaked_information == text);
                } else {
                    assert(d == rest.push(x));
                    assert(d[d.len() - 1].leaked_information == text);
                }
            }
        }
    }
}

/// Merge mode yields pairwise distinct literal texts: at most one leak per
/// text survives deduplication.
pub proof fn lemma_dedup_unique(s: Seq<LeakView>)
    ensures
        forall|i: int, j: int|
            0 <= i < j < spec_dedup_first(s).len() ==> (#[trigger] spec_dedup_first(
                s,
            )[i]).leaked_information != (#[trigger] spec_dedup_first(s)[j]).leaked_information,
    decreases s.len(),
{
    if s.len() > 0 {
        let p = s.drop_last();
        let x = s.last();
        let rest = spec_dedup_first(p);
        lemma_dedup_unique(p);
        if !catalog_contains_text(rest, x.leaked_information) {
            let d = rest.push(x);
            assert forall|i: int, j: int|
                0 <= i < j < d.len() implies (#[trigger] d[i]).leaked_information != (#[trigger] d[j]).leaked_information by {
                if j < rest.len() {
                    assert(d[i] == rest[i] && d[j] == rest[j]);
                } else {
                    assert(d[j] == x);
                    assert(d[i] == rest[i]);
                    assert(!(rest[i].leaked_information == x.leaked_information));
                }
            }
        }
    }
}

/// True when `v` stands at `i` in `s` and no earlier element carries its
/// literal text: `v` is the first leak with that text.
pub open spec fn appears_first_at(s: Seq<LeakView>, i: int, v: LeakView) -> bool {
    &&& 0 <= i < s.len()
    &&& s[i] == v
    &&& forall|k: int|
        0 <= k < i ==> (#[trigger] s[k]).leaked_information != v.leaked_information
}

/// True when `v` appears somewhere in `s` as the first leak with its
/// literal text.
pub open spec fn has_first_witness(s: Seq<LeakView>, v: LeakView) -> bool {
    exists|i: int| #[trigger] appears_first_at(s, i, v)
}

/// Every leak merge mode retains is the first admitted leak with its
/// literal text.
pub proof fn lemma_dedup_keeps_first(s: Seq<LeakView>)
    ensures
        forall|j: int|
            0 <= j < spec_dedup_first(s).len() ==> has_first_witness(
                s,
                #[trigger] spec_dedup_first(s)[j],
            ),
    decreases s.len(),
{
    if s.len() > 0 {
        let p = s.drop_last();
        let x = s.last();
        let rest = spec_dedup_first(p);
        let d = spec_dedup_first(s);
        lemma_dedup_keeps_first(p);
        lemma_dedup_keys(p);
        assert forall|j: int| 0 <= j < d.len() implies has_first_witness(s, #[trigger] d[j]) by {
            if catalog_contains_text(rest, x.leaked_information) {
                assert(d == rest);
                assert(rest[j] == d[j]);
                let i = choose|i: int| #[trigger] appears_first_at(p, i, rest[j]);
                assert(appears_first_at(p, i, d[j]));
                assert(s[i] == p[i]);
                assert forall|k: int|
                    0 <= k < i implies (#[trigger] s[k]).leaked_information
                    != d[j].leaked_information by {
                    assert(p[k] == s[k]);
                }
                assert(appears_first_at(s, i, d[j]));
            } else {
                assert(d == rest.push(x));
                if j < rest.len() {
                    assert(rest[j] == d[j]);
                    let i = choose|i: int| #[trigger] appears_first_at(p, i, rest[j]);
                    assert(appears_first_at(p, i, d[j]));
                    assert(s[i] == p[i]);
                    assert forall|k: int|
                        0 <= k < i implies (#[trigger] s[k]).leaked_information
                        != d[j].leaked_information by {
                        assert(p[k] == s[k]);
                    }
                    assert(appears_first_at(s, i, d[j]));
                } else {
                    assert(d[j] == x);
                    assert(!catalog_contains_text(rest, x.leaked_information));
                    assert(!catalog_contains_text(p, x.leaked_information));
                    assert forall|k: int|
                        0 <= k < s.len() - 1 implies (#[trigger] s[k]).leaked_information
                        != x.leaked_information by {
                        assert(p[k] == s[k]);
                        assert(catalog_contains_text(p, x.leaked_information) == exists|m: int|
                            0 <= m < p.len() && (#[trigger] p[m]).leaked_information
                                == x.leaked_information);
                    }
                    assert(appears_first_at(s, s.len() - 1, x));
                }
            }
        }
    }
}

/// Whatever the configuration, every catalog entry is well formed and
/// unsuppressed: its bytes are the transcoding of its text, its declaring
/// file matches no suppressed file pattern, and its text equals no
/// suppressed artifact.
pub proof fn lemma_catalog_sound(
    occs: Seq<OccView>,
    sup: Option<Suppressions>,
    config: CatalogConfig,
)
    ensures
        forall|j: int|
            0 <= j < spec_build_catalog(occs, sup, config).len() ==> {
                let leak = #[trigger] spec_build_catalog(occs, sup, config)[j];
                &&& leak_well_formed(leak)
                &&& !spec_file_suppressed(sup, leak.file)
                &&& !spec_artifact_suppressed(sup, leak.leaked_information)
            },
{
    let adm = spec_admitted(occs, sup, config.include_system_headers);
    let cat = spec_build_catalog(occs, sup, config);
    lemma_admitted_sound(occs, sup, config.include_system_headers);
    if config.merge_duplicate_declarations {
        lemma_dedup_keeps_first(adm);
        assert forall|j: int| 0 <= j < cat.len() implies {
            let leak = #[trigger] cat[j];
            &&& leak_well_formed(leak)
            &&& !spec_file_suppressed(sup, leak.file)
            &&& !spec_artifact_suppressed(sup, leak.leaked_information)
        } by {
            assert(has_first_witness(adm, cat[j]));
            let i = choose|i: int| #[trigger] appears_first_at(adm, i, cat[j]);
            assert(adm[i] == cat[j]);
        }
    }
}

} // verus!

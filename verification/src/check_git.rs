//! Scanning a checkout: which files are eligible, the project name drawn
//! from a repository URL, and the fold of per-file findings into one set.

use vstd::prelude::*;
use vstd::string::StrSliceExecFns;

use crate::checks::{
    default_flagged, default_flagged_attrs, names_set, node_findings, FindingKey, FindingSet,
    SourceUnit, UnsafeCrate,
};

verus! {

/// `p` occurs in `s` starting at position `i`.
pub open spec fn has_substr_at(s: Seq<char>, p: Seq<char>, i: int) -> bool {
    0 <= i && i + p.len() <= s.len() && s.subrange(i, i + p.len()) == p
}

/// `p` occurs somewhere in `s`.
pub open spec fn has_substr(s: Seq<char>, p: Seq<char>) -> bool {
    exists|i: int| has_substr_at(s, p, i)
}

fn match_at(s: &str, pat: &str, i: usize, n: usize, m: usize) -> (b: bool)
    requires
        n == s@.len(),
        m == pat@.len(),
        i + m <= n,
    ensures
        b == has_substr_at(s@, pat@, i as int),
{
    let mut j: usize = 0;
    while j < m
        invariant
            j <= m,
            n == s@.len(),
            m == pat@.len(),
            i + m <= n,
            forall|k: int| 0 <= k < j ==> s@[i + k] == pat@[k],
        decreases m - j,
    {
        if s.get_char(i + j) != pat.get_char(j) {
            proof {
                assert(s@.subrange(i as int, i + m) != pat@) by {
                    if s@.subrange(i as int, i + m) == pat@ {
                        assert(s@.subrange(i as int, i + m)[j as int] == s@[i + j]);
                    }
                }
            }
            return false;
        }
        j += 1;
    }
    proof {
        assert(s@.subrange(i as int, i + m) =~= pat@);
    }
    true
}

/// Whether the pattern occurs anywhere in the text.
fn contains_pat(s: &str, pat: &str) -> (b: bool)
    ensures
        b == has_substr(s@, pat@),
{
    let n = s.unicode_len();
    let m = pat.unicode_len();
    if m == 0 {
        proof {
            assert(s@.subrange(0, 0) =~= pat@);
            assert(has_substr_at(s@, pat@, 0));
        }
        return true;
    }
    if m > n {
        proof {
            assert(!has_substr(s@, pat@)) by {
                assert(forall|i: int| !has_substr_at(s@, pat@, i));
            }
        }
        return false;
    }
    let mut i: usize = 0;
    while i <= n - m
        invariant
            1 <= m <= n,
            n == s@.len(),
            m == pat@.len(),
            i <= n - m + 1,
            forall|k: int| 0 <= k < i ==> !has_substr_at(s@, pat@, k),
        decreases n - m + 1 - i,
    {
        if match_at(s, pat, i, n, m) {
            return true;
        }
        i += 1;
    }
    proof {
        assert(!has_substr(s@, pat@)) by {
            assert(forall|k: int| k > n - m ==> !has_substr_at(s@, pat@, k));
        }
    }
    false
}

/// The path names a Rust source file.
pub open spec fn is_rust_file_spec(path: Seq<char>) -> bool {
    has_substr(path, ".rs"@)
}

/// True exactly when the path names a Rust source file.
pub fn is_rust_file(file_path: &str) -> (r: bool)
    ensures
        r == is_rust_file_spec(file_path@),
{
    contains_pat(file_path, ".rs")
}

/// The path avoids every directory that cargo conventions exclude from an
/// audit of shipped code: examples, build output, tests and benchmarks.
pub open spec fn is_in_valid_dir_spec(path: Seq<char>) -> bool {
    !(has_substr(path, "examples"@) || has_substr(path, "target"@) || has_substr(path, "tests"@)
        || has_substr(path, "benches"@))
}

/// Returns false for any path under a directory that should be excluded
/// based on cargo conventions.
pub fn is_in_valid_dir(file_path: &str) -> (r: bool)
    ensures
        r == is_in_valid_dir_spec(file_path@),
{
    !(contains_pat(file_path, "examples") || contains_pat(file_path, "target") || contains_pat(
        file_path,
        "tests",
    ) || contains_pat(file_path, "benches"))
}

/// The path is eligible for scanning: a Rust file outside excluded
/// directories.
pub open spec fn is_valid_file_spec(path: Seq<char>) -> bool {
    is_rust_file_spec(path) && is_in_valid_dir_spec(path)
}

/// True exactly when the path is eligible for scanning.
pub fn is_valid_file(file_path: &str) -> (r: bool)
    ensures
        r == is_valid_file_spec(file_path@),
{
    is_rust_file(file_path) && is_in_valid_dir(file_path)
}

/// What `str::to_lowercase` returns; a function of the characters alone.
pub uninterp spec fn lower_of(s: Seq<char>) -> Seq<char>;

/// Relies on `str::to_lowercase`: the result depends on the input characters
/// alone, and an empty input yields an empty result.
#[verifier::external_body]
fn lowercase(s: &str) -> (r: String)
    ensures
        r@ == lower_of(s@),
        s@.len() == 0 ==> r@.len() == 0,
{
    s.to_lowercase()
}

/// The suffix of `s` after its last `'/'`; all of `s` when it has none.
pub open spec fn last_segment(s: Seq<char>) -> Seq<char>
    decreases s.len(),
{
    if s.len() == 0 {
        s
    } else if s.last() == '/' {
        Seq::empty()
    } else {
        last_segment(s.drop_last()).push(s.last())
    }
}

proof fn lemma_last_segment_suffix(s: Seq<char>, start: int)
    requires
        0 <= start <= s.len(),
        forall|k: int| start <= k < s.len() ==> s[k] != '/',
        start == 0 || s[start - 1] == '/',
    ensures
        last_segment(s) == s.subrange(start, s.len() as int),
    decreases s.len(),
{
    if s.len() == 0 {
        assert(s.subrange(0, 0) =~= s);
    } else if start == s.len() {
        assert(s.subrange(start, s.len() as int) =~= Seq::<char>::empty());
    } else {
        assert(s[s.len() - 1] != '/');
        lemma_last_segment_suffix(s.drop_last(), start);
        assert(s.subrange(start, s.len() as int) =~= s.drop_last().subrange(
            start,
            s.len() - 1,
        ).push(s.last()));
    }
}

/// Returns the project name: the last segment of the git URL, lowercased.
pub fn git_url_to_name(git_url: &String) -> (r: String)
    ensures
        r@ == lower_of(last_segment(git_url@)),
{
    let s: &str = git_url.as_str();
    let n = s.unicode_len();
    let mut start: usize = n;
    while start > 0 && s.get_char(start - 1) != '/'
        invariant
            start <= n,
            n == s@.len(),
            forall|k: int| start <= k < n ==> s@[k] != '/',
        decreases start,
    {
        start -= 1;
    }
    let seg = s.substring_char(start, n);
    proof {
        lemma_last_segment_suffix(s@, start as int);
    }
    lowercase(seg)
}

/// The eligibility predicate for a full scan: Rust files outside the
/// conventionally excluded directories.
pub open spec fn valid_file_pred() -> spec_fn(Seq<char>) -> bool {
    |p: Seq<char>| is_valid_file_spec(p)
}

/// The eligibility predicate that checks the directory convention alone.
pub open spec fn valid_dir_pred() -> spec_fn(Seq<char>) -> bool {
    |p: Seq<char>| is_in_valid_dir_spec(p)
}

/// The union, over every unit whose path `eligible` accepts, of the
/// findings of that unit's tree: the checkout-level finding set.
pub open spec fn units_findings(
    units: Seq<SourceUnit>,
    flagged: Set<Seq<char>>,
    eligible: spec_fn(Seq<char>) -> bool,
) -> Set<FindingKey>
    decreases units.len(),
{
    if units.len() == 0 {
        Set::empty()
    } else {
        (if eligible(units[0].path@) {
            node_findings(units[0].root, flagged)
        } else {
            Set::empty()
        }) + units_findings(units.drop_first(), flagged, eligible)
    }
}

proof fn lemma_units_findings_push(
    units: Seq<SourceUnit>,
    u: SourceUnit,
    flagged: Set<Seq<char>>,
    eligible: spec_fn(Seq<char>) -> bool,
)
    ensures
        units_findings(units.push(u), flagged, eligible) == units_findings(units, flagged, eligible)
            + (if eligible(u.path@) {
            node_findings(u.root, flagged)
        } else {
            Set::<FindingKey>::empty()
        }),
    decreases units.len(),
{
    let tailset = if eligible(u.path@) {
        node_findings(u.root, flagged)
    } else {
        Set::<FindingKey>::empty()
    };
    if units.len() == 0 {
        assert(units.push(u)[0] == u);
        assert(units.push(u).drop_first() =~= units);
        assert(units_findings(units, flagged, eligible) =~= Set::<FindingKey>::empty());
        assert(units_findings(units.push(u), flagged, eligible) =~= units_findings(
            units,
            flagged,
            eligible,
        ) + tailset);
    } else {
        assert(units.push(u)[0] == units[0]);
        assert(units.push(u).drop_first() =~= units.drop_first().push(u));
        lemma_units_findings_push(units.drop_first(), u, flagged, eligible);
        assert(units_findings(units.push(u), flagged, eligible) =~= units_findings(
            units,
            flagged,
            eligible,
        ) + tailset);
    }
}

/// The predicate a scan applies: the full file check, or the directory
/// check alone.
pub open spec fn scan_pred(require_rust_file: bool) -> spec_fn(Seq<char>) -> bool {
    if require_rust_file {
        valid_file_pred()
    } else {
        valid_dir_pred()
    }
}

/// Applies the classification visitor to every unit whose path passes the
/// selected eligibility check and unions the per-file finding sets.
pub(crate) fn scan_filtered(units: &Vec<SourceUnit>, require_rust_file: bool) -> (r: FindingSet)
    ensures
        r.wf(),
        r@ == units_findings(units@, default_flagged(), scan_pred(require_rust_file)),
{
    let mut visitor = UnsafeCrate {
        locations: FindingSet::new(),
        flagged_attrs: default_flagged_attrs(),
    };
    let ghost elig = scan_pred(require_rust_file);
    let n = units.len();
    let mut i: usize = 0;
    proof {
        assert(units@.take(0) =~= Seq::<SourceUnit>::empty());
        assert(visitor.locations@ =~= units_findings(units@.take(0), default_flagged(), elig));
    }
    while i < n
        invariant
            n == units@.len(),
            i <= n,
            visitor.locations.wf(),
            names_set(visitor.flagged_attrs@) == default_flagged(),
            elig == scan_pred(require_rust_file),
            visitor.locations@ == units_findings(units@.take(i as int), default_flagged(), elig),
        decreases n - i,
    {
        let u = &units[i];
        let ok = if require_rust_file {
            is_valid_file(u.path.as_str())
        } else {
            is_in_valid_dir(u.path.as_str())
        };
        if ok {
            visitor.visit_node(&u.root);
        }
        proof {
            assert(units@.take(i as int + 1) =~= units@.take(i as int).push(units@[i as int]));
            lemma_units_findings_push(
                units@.take(i as int),
                units@[i as int],
                default_flagged(),
                elig,
            );
            assert(visitor.locations@ =~= units_findings(
                units@.take(i as int + 1),
                default_flagged(),
                elig,
            ));
        }
        i += 1;
    }
    proof {
        assert(units@.take(n as int) =~= units@);
    }
    visitor.locations
}

/// Iterates through every parsed file of the repository and returns every
/// safety infraction found in eligible files, de-duplicated.
pub fn safety_infractions(units: &Vec<SourceUnit>) -> (r: FindingSet)
    ensures
        r.wf(),
        r@ == units_findings(units@, default_flagged(), valid_file_pred()),
{
    scan_filtered(units, true)
}

/// A finding is in the checkout-level set exactly when some eligible
/// unit's tree contains it.
pub proof fn lemma_units_findings_membership(
    units: Seq<SourceUnit>,
    flagged: Set<Seq<char>>,
    eligible: spec_fn(Seq<char>) -> bool,
    f: FindingKey,
)
    ensures
        units_findings(units, flagged, eligible).contains(f) <==> exists|i: int|
            0 <= i < units.len() && eligible(units[i].path@) && node_findings(
                units[i].root,
                flagged,
            ).contains(f),
    decreases units.len(),
{
    if units.len() == 0 {
    } else {
        let rest = units.drop_first();
        lemma_units_findings_membership(rest, flagged, eligible, f);
        if units_findings(units, flagged, eligible).contains(f) {
            if eligible(units[0].path@) && node_findings(units[0].root, flagged).contains(f) {
                assert(0 < units.len() && eligible(units[0].path@) && node_findings(
                    units[0].root,
                    flagged,
                ).contains(f));
            } else {
                let j = choose|j: int|
                    0 <= j < rest.len() && eligible(rest[j].path@) && node_findings(
                        rest[j].root,
                        flagged,
                    ).contains(f);
                assert(rest[j] == units[j + 1]);
                assert(eligible(units[j + 1].path@) && node_findings(
                    units[j + 1].root,
                    flagged,
                ).contains(f));
            }
        }
        if exists|i: int|
            0 <= i < units.len() && eligible(units[i].path@) && node_findings(
                units[i].root,
                flagged,
            ).contains(f) {
            let i = choose|i: int|
                0 <= i < units.len() && eligible(units[i].path@) && node_findings(
                    units[i].root,
                    flagged,
                ).contains(f);
            if i == 0 {
            } else {
                assert(rest[i - 1] == units[i]);
                assert(eligible(rest[i - 1].path@) && node_findings(
                    rest[i - 1].root,
                    flagged,
                ).contains(f));
                assert(units_findings(rest, flagged, eligible).contains(f));
            }
        }
    }
}

proof fn lemma_units_findings_covered(
    u1: Seq<SourceUnit>,
    u2: Seq<SourceUnit>,
    flagged: Set<Seq<char>>,
    eligible: spec_fn(Seq<char>) -> bool,
)
    requires
        u1.to_multiset() == u2.to_multiset(),
    ensures
        forall|f: FindingKey|
            units_findings(u1, flagged, eligible).contains(f) ==> units_findings(
                u2,
                flagged,
                eligible,
            ).contains(f),
{
    u1.to_multiset_ensures();
    u2.to_multiset_ensures();
    assert forall|f: FindingKey|
        units_findings(u1, flagged, eligible).contains(f) implies units_findings(
        u2,
        flagged,
        eligible,
    ).contains(f) by {
        lemma_units_findings_membership(u1, flagged, eligible, f);
        lemma_units_findings_membership(u2, flagged, eligible, f);
        let i = choose|i: int|
            0 <= i < u1.len() && eligible(u1[i].path@) && node_findings(
                u1[i].root,
                flagged,
            ).contains(f);
        assert(u1.contains(u1[i]));
        assert(u1.to_multiset().count(u1[i]) > 0);
        assert(u2.to_multiset().count(u1[i]) > 0);
        assert(u2.contains(u1[i]));
        let j = choose|j: int| 0 <= j < u2.len() && u2[j] == u1[i];
        assert(eligible(u2[j].path@) && node_findings(u2[j].root, flagged).contains(f));
    }
}

/// Order independence: scanning the same units in two different orders
/// yields finding sets of equal content.
pub proof fn lemma_units_findings_order_independent(
    u1: Seq<SourceUnit>,
    u2: Seq<SourceUnit>,
    flagged: Set<Seq<char>>,
    eligible: spec_fn(Seq<char>) -> bool,
)
    requires
        u1.to_multiset() == u2.to_multiset(),
    ensures
        units_findings(u1, flagged, eligible) == units_findings(u2, flagged, eligible),
{
    lemma_units_findings_covered(u1, u2, flagged, eligible);
    lemma_units_findings_covered(u2, u1, flagged, eligible);
    assert(units_findings(u1, flagged, eligible) =~= units_findings(u2, flagged, eligible));
}

} // verus!

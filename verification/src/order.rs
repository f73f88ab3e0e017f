//! Equality and order of versions: the triple decides first, then the extra
//! numbers.

use crate::triple::VersionTriple;
use crate::version::{VersionNumber, VersionNumberView};
use std::cmp::Ordering;
use vstd::prelude::*;
use vstd::std_specs::cmp::{PartialEqSpecImpl, PartialOrdSpecImpl};

verus! {

/// How two triples compare: by major number, then minor, then patch.
pub open spec fn triple_order(a: VersionTriple, b: VersionTriple) -> Ordering {
    if a.major < b.major {
        Ordering::Less
    } else if a.major > b.major {
        Ordering::Greater
    } else if a.minor < b.minor {
        Ordering::Less
    } else if a.minor > b.minor {
        Ordering::Greater
    } else if a.patch < b.patch {
        Ordering::Less
    } else if a.patch > b.patch {
        Ordering::Greater
    } else {
        Ordering::Equal
    }
}

/// At how many places, counted from the front, `a` and `b` hold the same
/// number before they first differ or one of them ends.
pub open spec fn agreeing_len(a: Seq<u32>, b: Seq<u32>) -> int
    decreases a.len(),
{
    if a.len() == 0 || b.len() == 0 || a[0] != b[0] {
        0
    } else {
        1 + agreeing_len(a.drop_first(), b.drop_first())
    }
}

/// How two lists of numbers compare: by the first place where they differ;
/// a list that is the beginning of a longer one comes before it.
pub open spec fn numbers_order(a: Seq<u32>, b: Seq<u32>) -> Ordering {
    let k = agreeing_len(a, b);
    if k == a.len() && k == b.len() {
        Ordering::Equal
    } else if k == a.len() {
        Ordering::Less
    } else if k == b.len() {
        Ordering::Greater
    } else if a[k] < b[k] {
        Ordering::Less
    } else {
        Ordering::Greater
    }
}

/// How the extra numbers of two versions compare: none at all comes before
/// any list, the empty list included.
pub open spec fn extra_order(a: Option<Seq<u32>>, b: Option<Seq<u32>>) -> Ordering {
    match (a, b) {
        (None, None) => Ordering::Equal,
        (None, Some(_)) => Ordering::Less,
        (Some(_), None) => Ordering::Greater,
        (Some(x), Some(y)) => numbers_order(x, y),
    }
}

/// How two versions compare: by their triples, and by their extra numbers
/// where the triples are the same.
pub open spec fn version_order(a: VersionNumberView, b: VersionNumberView) -> Ordering {
    match triple_order(a.triple, b.triple) {
        Ordering::Equal => extra_order(a.extra, b.extra),
        Ordering::Less => Ordering::Less,
        Ordering::Greater => Ordering::Greater,
    }
}

/// The two lists agree up to `agreeing_len`, and differ there unless one of
/// them ends.
pub proof fn lemma_agreeing_len_bounds(a: Seq<u32>, b: Seq<u32>)
    ensures
        0 <= agreeing_len(a, b) <= a.len(),
        agreeing_len(a, b) <= b.len(),
        forall|j: int| 0 <= j < agreeing_len(a, b) ==> a[j] == b[j],
        agreeing_len(a, b) < a.len() && agreeing_len(a, b) < b.len() ==> a[agreeing_len(a, b)]
            != b[agreeing_len(a, b)],
    decreases a.len(),
{
    if a.len() == 0 || b.len() == 0 || a[0] != b[0] {
    } else {
        let x = a.drop_first();
        let y = b.drop_first();
        lemma_agreeing_len_bounds(x, y);
        assert forall|j: int| 0 <= j < agreeing_len(a, b) implies a[j] == b[j] by {
            if j > 0 {
                assert(a[j] == x[j - 1]);
                assert(b[j] == y[j - 1]);
            }
        }
    }
}

/// A place up to which the lists agree, and where they differ or one of them
/// ends, is `agreeing_len`.
pub proof fn lemma_agreeing_len_is(a: Seq<u32>, b: Seq<u32>, k: int)
    requires
        0 <= k <= a.len(),
        k <= b.len(),
        forall|j: int| 0 <= j < k ==> a[j] == b[j],
        k < a.len() && k < b.len() ==> a[k] != b[k],
    ensures
        agreeing_len(a, b) == k,
    decreases k,
{
    if k > 0 {
        let x = a.drop_first();
        let y = b.drop_first();
        assert(a[0] == b[0]);
        assert forall|j: int| 0 <= j < k - 1 implies x[j] == y[j] by {
            assert(a[j + 1] == b[j + 1]);
        }
        lemma_agreeing_len_is(x, y, k - 1);
    }
}

/// A list agrees with each of its continuations over its whole length.
pub proof fn lemma_agreeing_len_prefix(a: Seq<u32>, more: Seq<u32>)
    ensures
        agreeing_len(a, a + more) == a.len(),
        agreeing_len(a, a) == a.len(),
{
    lemma_agreeing_len_is(a, a + more, a.len() as int);
    lemma_agreeing_len_is(a, a, a.len() as int);
}

/// The number of places from the front at which `a` and `b` agree.
fn agreeing_prefix(a: &Vec<u32>, b: &Vec<u32>) -> (k: usize)
    ensures
        k == agreeing_len(a@, b@),
        k <= a.len(),
        k <= b.len(),
{
    let mut k: usize = 0;
    while k < a.len() && k < b.len() && a[k] == b[k]
        invariant
            k <= a.len(),
            k <= b.len(),
            forall|j: int| 0 <= j < k ==> a@[j] == b@[j],
        decreases a.len() - k,
    {
        k += 1;
    }
    proof {
        lemma_agreeing_len_is(a@, b@, k as int);
    }
    k
}

/// Compares two triples.
pub fn compare_triples(a: &VersionTriple, b: &VersionTriple) -> (r: Ordering)
    ensures
        r == triple_order(*a, *b),
{
    if a.major < b.major {
        Ordering::Less
    } else if a.major > b.major {
        Ordering::Greater
    } else if a.minor < b.minor {
        Ordering::Less
    } else if a.minor > b.minor {
        Ordering::Greater
    } else if a.patch < b.patch {
        Ordering::Less
    } else if a.patch > b.patch {
        Ordering::Greater
    } else {
        Ordering::Equal
    }
}

/// Compares two lists of extra numbers.
pub fn compare_numbers(a: &Vec<u32>, b: &Vec<u32>) -> (r: Ordering)
    ensures
        r == numbers_order(a@, b@),
{
    let k = agreeing_prefix(a, b);
    if k == a.len() && k == b.len() {
        Ordering::Equal
    } else if k == a.len() {
        Ordering::Less
    } else if k == b.len() {
        Ordering::Greater
    } else if a[k] < b[k] {
        Ordering::Less
    } else {
        Ordering::Greater
    }
}

/// Compares two versions.
pub fn compare_versions(a: &VersionNumber, b: &VersionNumber) -> (r: Ordering)
    ensures
        r == version_order(a@, b@),
{
    match compare_triples(&a.triple, &b.triple) {
        Ordering::Less => Ordering::Less,
        Ordering::Greater => Ordering::Greater,
        Ordering::Equal => match (&a.extra, &b.extra) {
            (None, None) => Ordering::Equal,
            (None, Some(_)) => Ordering::Less,
            (Some(_), None) => Ordering::Greater,
            (Some(x), Some(y)) => compare_numbers(x, y),
        },
    }
}

impl PartialOrd for VersionTriple {
    fn partial_cmp(&self, other: &VersionTriple) -> (r: Option<Ordering>) {
        Some(compare_triples(self, other))
    }
}

impl PartialOrdSpecImpl for VersionTriple {
    open spec fn obeys_partial_cmp_spec() -> bool {
        true
    }

    open spec fn partial_cmp_spec(&self, other: &VersionTriple) -> Option<Ordering> {
        Some(triple_order(*self, *other))
    }
}

impl PartialEq for VersionNumber {
    fn eq(&self, other: &VersionNumber) -> (r: bool) {
        proof {
            lemma_order_equal(self@, other@);
        }
        match compare_versions(self, other) {
            Ordering::Equal => true,
            _ => false,
        }
    }
}

impl PartialEqSpecImpl for VersionNumber {
    open spec fn obeys_eq_spec() -> bool {
        true
    }

    open spec fn eq_spec(&self, other: &VersionNumber) -> bool {
        self@ == other@
    }
}

impl PartialOrd for VersionNumber {
    fn partial_cmp(&self, other: &VersionNumber) -> (r: Option<Ordering>) {
        Some(compare_versions(self, other))
    }
}

impl PartialOrdSpecImpl for VersionNumber {
    open spec fn obeys_partial_cmp_spec() -> bool {
        true
    }

    open spec fn partial_cmp_spec(&self, other: &VersionNumber) -> Option<Ordering> {
        Some(version_order(self@, other@))
    }
}

/// Two lists compare as equal exactly where they are the same list.
pub proof fn lemma_numbers_equal(a: Seq<u32>, b: Seq<u32>)
    ensures
        numbers_order(a, b) == Ordering::Equal <==> a == b,
{
    lemma_agreeing_len_bounds(a, b);
    if a == b {
        lemma_agreeing_len_prefix(a, Seq::empty());
    }
    if numbers_order(a, b) == Ordering::Equal {
        assert(a =~= b);
    }
}

/// Two versions compare as equal exactly where they are the same value.
pub proof fn lemma_order_equal(a: VersionNumberView, b: VersionNumberView)
    ensures
        version_order(a, b) == Ordering::Equal <==> a == b,
{
    match (a.extra, b.extra) {
        (Some(x), Some(y)) => {
            lemma_numbers_equal(x, y);
        },
        _ => {},
    }
}

/// Swapping the two lists swaps `Less` and `Greater`.
pub proof fn lemma_numbers_reverse(a: Seq<u32>, b: Seq<u32>)
    ensures
        numbers_order(a, b) == Ordering::Less <==> numbers_order(b, a) == Ordering::Greater,
        numbers_order(a, b) == Ordering::Greater <==> numbers_order(b, a) == Ordering::Less,
{
    lemma_agreeing_len_bounds(a, b);
    lemma_agreeing_len_is(b, a, agreeing_len(a, b));
}

/// The order of lists is transitive.
pub proof fn lemma_numbers_transitive(a: Seq<u32>, b: Seq<u32>, c: Seq<u32>)
    requires
        numbers_order(a, b) != Ordering::Greater,
        numbers_order(b, c) != Ordering::Greater,
    ensures
        numbers_order(a, c) != Ordering::Greater,
        numbers_order(a, c) == Ordering::Equal ==> numbers_order(a, b) == Ordering::Equal
            && numbers_order(b, c) == Ordering::Equal,
{
    lemma_agreeing_len_bounds(a, b);
    lemma_agreeing_len_bounds(b, c);
    let k1 = agreeing_len(a, b);
    let k2 = agreeing_len(b, c);
    let k = if k1 <= k2 {
        k1
    } else {
        k2
    };
    assert forall|j: int| 0 <= j < k implies a[j] == c[j] by {
        assert(a[j] == b[j]);
        assert(b[j] == c[j]);
    }
    lemma_agreeing_len_is(a, c, k);
}

/// Where the triples differ, they alone decide how two versions compare.
pub proof fn lemma_triple_decides(a: VersionNumberView, b: VersionNumberView)
    requires
        a.triple != b.triple,
    ensures
        version_order(a, b) == triple_order(a.triple, b.triple),
        version_order(a, b) != Ordering::Equal,
{
}

/// A bare triple comes before the same triple with extra numbers, whatever
/// they are.
pub proof fn lemma_bare_before_extras(triple: VersionTriple, numbers: Seq<u32>)
    ensures
        version_order(
            VersionNumberView { triple, extra: None },
            VersionNumberView { triple, extra: Some(numbers) },
        ) == Ordering::Less,
{
}

/// A version comes before every version that continues its extra numbers.
pub proof fn lemma_prefix_before_extension(triple: VersionTriple, numbers: Seq<u32>, more: Seq<u32>)
    requires
        more.len() > 0,
    ensures
        version_order(
            VersionNumberView { triple, extra: Some(numbers) },
            VersionNumberView { triple, extra: Some(numbers + more) },
        ) == Ordering::Less,
{
    lemma_agreeing_len_prefix(numbers, more);
}

/// Swapping two versions swaps `Less` and `Greater`.
pub proof fn lemma_order_reverse(a: VersionNumberView, b: VersionNumberView)
    ensures
        version_order(a, b) == Ordering::Less <==> version_order(b, a) == Ordering::Greater,
        version_order(a, b) == Ordering::Greater <==> version_order(b, a) == Ordering::Less,
        version_order(a, b) == Ordering::Equal <==> version_order(b, a) == Ordering::Equal,
{
    match (a.extra, b.extra) {
        (Some(x), Some(y)) => {
            lemma_numbers_reverse(x, y);
        },
        _ => {},
    }
}

/// The order of versions is transitive: it is a total order.
pub proof fn lemma_order_transitive(a: VersionNumberView, b: VersionNumberView, c: VersionNumberView)
    requires
        version_order(a, b) != Ordering::Greater,
        version_order(b, c) != Ordering::Greater,
    ensures
        version_order(a, c) != Ordering::Greater,
        version_order(a, c) == Ordering::Equal ==> version_order(a, b) == Ordering::Equal
            && version_order(b, c) == Ordering::Equal,
{
    match (a.extra, b.extra, c.extra) {
        (Some(x), Some(y), Some(z)) => {
            if a.triple == b.triple && b.triple == c.triple {
                lemma_numbers_transitive(x, y, z);
            }
        },
        _ => {},
    }
}

} // verus!

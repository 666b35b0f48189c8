//! Hardware-generation detection.
//!
//! The generation is read from the CPU brand string. The lookup itself belongs to
//! the platform; this module classifies what it returned and keeps the answer in a
//! write-once cell, so that every later query within a process sees the same result.

use vstd::prelude::*;

verus! {

/// Coprocessor generation, named after the processor family that carries it.
#[derive(Clone, Copy, Debug, PartialEq, Eq, Hash, Structural)]
pub enum AmxVersion {
    M1,
    M2,
    M3,
    M4,
    /// A processor of the vendor that names no known generation; it still has the
    /// coprocessor.
    Unknown,
}

/// `p` occurs in `s` as a contiguous run.
pub open spec fn has_substring(s: Seq<char>, p: Seq<char>) -> bool {
    exists|i: int| 0 <= i && i + p.len() <= s.len() && #[trigger] s.subrange(i, i + p.len()) == p
}

/// The generation that a brand string names: none unless the string names the
/// vendor, else the first of M1, M2, M3, M4 that occurs in it, else `Unknown`.
pub open spec fn generation_of(brand: Seq<char>) -> Option<AmxVersion> {
    if !has_substring(brand, "Apple"@) {
        None
    } else if has_substring(brand, "M1"@) {
        Some(AmxVersion::M1)
    } else if has_substring(brand, "M2"@) {
        Some(AmxVersion::M2)
    } else if has_substring(brand, "M3"@) {
        Some(AmxVersion::M3)
    } else if has_substring(brand, "M4"@) {
        Some(AmxVersion::M4)
    } else {
        Some(AmxVersion::Unknown)
    }
}

/// The generation for the outcome of a brand-string lookup; a failed lookup means
/// no coprocessor.
pub open spec fn lookup_generation(brand: Option<String>) -> Option<AmxVersion> {
    match brand {
        Some(s) => generation_of(s@),
        None => None,
    }
}

/// Whether `p` occurs in `s`.
pub fn contains_str(s: &str, p: &str) -> (r: bool)
    ensures
        r == has_substring(s@, p@),
{
    let n = s.unicode_len();
    let m = p.unicode_len();
    if m > n {
        assert forall|i: int| 0 <= i && i + p@.len() <= s@.len() implies #[trigger] s@.subrange(i, i + p@.len()) != p@ by {}
        return false;
    }
    let mut i: usize = 0;
    while i <= n - m
        invariant
            n == s@.len(),
            m == p@.len(),
            m <= n,
            i <= n - m + 1,
            forall|k: int| 0 <= k < i ==> #[trigger] s@.subrange(k, k + m) != p@,
        decreases n - m + 1 - i,
    {
        let mut j: usize = 0;
        let mut same = true;
        while j < m
            invariant
                n == s@.len(),
                m == p@.len(),
                i + m <= n,
                j <= m,
                same == (forall|t: int| 0 <= t < j ==> s@[i + t] == p@[t]),
            decreases m - j,
        {
            if s.get_char(i + j) != p.get_char(j) {
                same = false;
            }
            j += 1;
        }
        if same {
            assert(s@.subrange(i as int, i + m) =~= p@);
            return true;
        }
        assert(s@.subrange(i as int, i + m) != p@) by {
            let t = choose|t: int| 0 <= t < m && s@[i + t] != p@[t];
            assert(s@.subrange(i as int, i + m)[t] == s@[i + t]);
        }
        i += 1;
    }
    false
}

/// The generation named by a CPU brand string.
pub fn classify_brand(brand: &str) -> (r: Option<AmxVersion>)
    ensures
        r == generation_of(brand@),
{
    if !contains_str(brand, "Apple") {
        None
    } else if contains_str(brand, "M1") {
        Some(AmxVersion::M1)
    } else if contains_str(brand, "M2") {
        Some(AmxVersion::M2)
    } else if contains_str(brand, "M3") {
        Some(AmxVersion::M3)
    } else if contains_str(brand, "M4") {
        Some(AmxVersion::M4)
    } else {
        Some(AmxVersion::Unknown)
    }
}

/// A write-once cell for the detection result. It starts empty; the first query
/// fills it and it never changes after that.
pub struct ProbeCell {
    cached: Option<Option<AmxVersion>>,
}

/// One query against the cell: a filled cell answers with its content and stays
/// as it is; an empty one takes the fresh result and answers with it.
pub open spec fn probe_step(cached: Option<Option<AmxVersion>>, fresh: Option<AmxVersion>) -> (
    Option<Option<AmxVersion>>,
    Option<AmxVersion>,
) {
    match cached {
        Some(v) => (cached, v),
        None => (Some(fresh), fresh),
    }
}

impl ProbeCell {
    /// The cell's content: `None` while empty.
    pub closed spec fn cached(&self) -> Option<Option<AmxVersion>> {
        self.cached
    }

    /// An empty cell.
    pub fn new() -> (r: ProbeCell)
        ensures
            r.cached() is None,
    {
        ProbeCell { cached: None }
    }

    /// The cell's content, without a lookup.
    pub fn peek(&self) -> (r: Option<Option<AmxVersion>>)
        ensures
            r == self.cached(),
    {
        self.cached
    }
}

/// Detects the coprocessor generation. The brand-string lookup runs only while the
/// cell is empty; afterwards the cached answer is returned unchanged.
pub fn detect<F: FnOnce() -> Option<String>>(cell: &mut ProbeCell, lookup: F) -> (r: Option<AmxVersion>)
    requires
        lookup.requires(()),
    ensures
        exists|brand: Option<String>|
            (old(cell).cached() is None ==> lookup.ensures((), brand))
            && (final(cell).cached(), r) == #[trigger] probe_step(old(cell).cached(), lookup_generation(brand)),
{
    match cell.cached {
        Some(v) => {
            assert(probe_step(old(cell).cached(), lookup_generation(None)) == (cell.cached(), v));
            v
        },
        None => {
            let brand = lookup();
            let v = match &brand {
                Some(s) => classify_brand(s.as_str()),
                None => None,
            };
            cell.cached = Some(v);
            assert(probe_step(old(cell).cached(), lookup_generation(brand)) == (cell.cached(), v));
            v
        },
    }
}

/// Whether the coprocessor is present; the same query as [`detect`].
pub fn is_available<F: FnOnce() -> Option<String>>(cell: &mut ProbeCell, lookup: F) -> (r: bool)
    requires
        lookup.requires(()),
    ensures
        exists|brand: Option<String>|
            (old(cell).cached() is None ==> lookup.ensures((), brand))
            && (final(cell).cached(), r) == #[trigger] available_step(old(cell).cached(), lookup_generation(brand)),
{
    let v = detect(cell, lookup);
    proof {
        let brand = choose|brand: Option<String>|
            (old(cell).cached() is None ==> lookup.ensures((), brand))
            && (cell.cached(), v) == #[trigger] probe_step(old(cell).cached(), lookup_generation(brand));
        assert(available_step(old(cell).cached(), lookup_generation(brand)) == (cell.cached(), v is Some));
    }
    v.is_some()
}

/// [`probe_step`], answering only whether a generation was found.
pub open spec fn available_step(cached: Option<Option<AmxVersion>>, fresh: Option<AmxVersion>) -> (
    Option<Option<AmxVersion>>,
    bool,
) {
    (probe_step(cached, fresh).0, probe_step(cached, fresh).1 is Some)
}

/// Detection is idempotent: once a query has filled the cell, a second query
/// returns the same answer whatever its own lookup would have found, and leaves
/// the cell as it was.
pub proof fn lemma_detect_idempotent(
    cached: Option<Option<AmxVersion>>,
    first: Option<AmxVersion>,
    second: Option<AmxVersion>,
)
    ensures
        probe_step(probe_step(cached, first).0, second).1 == probe_step(cached, first).1,
        probe_step(probe_step(cached, first).0, second).0 == probe_step(cached, first).0,
{
}

} // verus!

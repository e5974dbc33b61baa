//! Health of the process's consensus lane.
//!
//! The first fatal failure is kept with a bounded diagnostic; later ones are
//! only counted. Failure is final.

use vstd::prelude::*;

verus! {

/// Most bytes kept of a diagnostic.
pub const CONSENSUS_DIAGNOSTIC_CAPACITY: usize = 1024;

/// The last character boundary at or before `at`.
pub open spec fn boundary_before(bytes: Seq<u8>, at: int) -> int
    decreases at,
{
    if at <= 0 {
        0
    } else if vstd::utf8::is_char_boundary(bytes, at) {
        at
    } else {
        boundary_before(bytes, at - 1)
    }
}

/// Where a text is cut to fit into so many bytes: at its end if it fits, else at
/// the last character boundary within them.
pub open spec fn cut_point(bytes: Seq<u8>, available: int) -> int {
    if bytes.len() <= available {
        bytes.len() as int
    } else {
        boundary_before(bytes, available)
    }
}

/// The UTF-8 bytes kept of a text where so many fit.
pub open spec fn fitting_bytes(text: Seq<char>, available: int) -> Seq<u8> {
    let bytes = vstd::utf8::encode_utf8(text);
    bytes.take(cut_point(bytes, available))
}

/// The UTF-8 bytes kept of a diagnostic.
pub open spec fn kept_bytes(text: Seq<char>) -> Seq<u8> {
    fitting_bytes(text, CONSENSUS_DIAGNOSTIC_CAPACITY as int)
}

/// A diagnostic of bounded length.
#[derive(Debug)]
pub struct BoundedDiagnostic {
    text: String,
}

/// A text did not fit whole.
#[derive(Clone, Copy, Debug, PartialEq, Eq, Structural)]
pub struct DiagnosticFull;

impl View for BoundedDiagnostic {
    type V = Seq<u8>;

    closed spec fn view(&self) -> Seq<u8> {
        vstd::utf8::encode_utf8(self.text@)
    }
}

/// The bytes of two texts in a row are those of the one, then those of the other.
proof fn lemma_encode_concat(a: Seq<char>, b: Seq<char>)
    ensures
        vstd::utf8::encode_utf8(a + b) == vstd::utf8::encode_utf8(a) + vstd::utf8::encode_utf8(b),
    decreases a.len(),
{
    if a.len() == 0 {
        assert(a + b =~= b);
        assert(vstd::utf8::encode_utf8(a) =~= Seq::empty());
    } else {
        lemma_encode_concat(a.drop_first(), b);
        assert((a + b).drop_first() =~= a.drop_first() + b);
        assert((a + b)[0] == a[0]);
        assert(vstd::utf8::encode_utf8(a + b) =~= vstd::utf8::encode_utf8(a)
            + vstd::utf8::encode_utf8(b));
    }
}

impl BoundedDiagnostic {
    /// Nothing kept yet.
    pub fn new() -> (d: BoundedDiagnostic)
        ensures
            d@ == Seq::<u8>::empty(),
    {
        let d = BoundedDiagnostic { text: String::new() };
        assert(d@ =~= Seq::empty());
        d
    }

    /// Append as much of a text as still fits, in whole characters; refused where
    /// no room is left, or not for all of it.
    pub fn write_str(&mut self, value: &str) -> (r: Result<(), DiagnosticFull>)
        requires
            old(self)@.len() <= CONSENSUS_DIAGNOSTIC_CAPACITY,
        ensures
            ({
                let available = CONSENSUS_DIAGNOSTIC_CAPACITY - old(self)@.len();
                let kept = fitting_bytes(value@, available);
                &&& final(self)@ == old(self)@ + kept
                &&& r is Ok <==> available > 0 && kept == vstd::utf8::encode_utf8(value@)
            }),
            final(self)@.len() <= CONSENSUS_DIAGNOSTIC_CAPACITY,
    {
        let ghost bytes = vstd::utf8::encode_utf8(value@);
        let available: usize = CONSENSUS_DIAGNOSTIC_CAPACITY - self.text.as_str().as_bytes().len();
        proof {
            lemma_boundary_range(bytes, available as int);
            assert(bytes.take(bytes.len() as int) =~= bytes);
        }
        if available == 0 {
            assert(bytes.take(0) =~= Seq::empty());
            assert(self@ + bytes.take(0) =~= self@);
            return Err(DiagnosticFull);
        }
        let n: usize = value.as_bytes().len();
        let mut take: usize = if n <= available {
            n
        } else {
            available
        };
        if n > available {
            while take > 0 && !value.is_char_boundary(take)
                invariant
                    take <= available,
                    bytes == vstd::utf8::encode_utf8(value@),
                    boundary_before(bytes, take as int) == boundary_before(
                        bytes,
                        available as int,
                    ),
                decreases take,
            {
                take -= 1;
            }
        }
        if take == n {
            proof {
                lemma_encode_concat(self.text@, value@);
            }
            self.text.append(value);
            return Ok(());
        }
        if take == 0 {
            assert(self@ + bytes.take(0) =~= self@);
            return Err(DiagnosticFull);
        }
        let (head, _tail) = value.split_at(take);
        proof {
            assert(bytes.subrange(0, take as int) =~= bytes.take(take as int));
            lemma_encode_concat(self.text@, head@);
        }
        self.text.append(head);
        Err(DiagnosticFull)
    }

    /// Keep as much of a rendered diagnostic as fits, in whole characters.
    pub fn from_args(rendered: &str) -> (d: BoundedDiagnostic)
        ensures
            d@ == kept_bytes(rendered@),
            d@.len() <= CONSENSUS_DIAGNOSTIC_CAPACITY,
    {
        let mut d = BoundedDiagnostic::new();
        let _ = d.write_str(rendered);
        assert(Seq::<u8>::empty() + kept_bytes(rendered@) =~= kept_bytes(rendered@));
        d
    }

    /// The text kept.
    pub fn as_str(&self) -> (s: &str)
        ensures
            vstd::utf8::encode_utf8(s@) == self@,
    {
        self.text.as_str()
    }
}

/// The first fatal failure.
#[derive(Debug)]
pub struct ConsensusFailure {
    kind: &'static str,
    detail: BoundedDiagnostic,
}

impl ConsensusFailure {
    /// The failure category.
    pub closed spec fn spec_kind(&self) -> Seq<char> {
        self.kind@
    }

    /// The bytes of the detail kept.
    pub closed spec fn spec_detail(&self) -> Seq<u8> {
        self.detail@
    }

    /// The failure category.
    pub fn kind(&self) -> (k: &'static str)
        ensures
            k@ == self.spec_kind(),
    {
        self.kind
    }

    /// The detail kept.
    pub fn detail(&self) -> (s: &str)
        ensures
            vstd::utf8::encode_utf8(s@) == self.spec_detail(),
    {
        self.detail.as_str()
    }
}

/// Health of the consensus lane.
#[derive(Debug)]
pub struct ConsensusHealth {
    failed: bool,
    failure_count: u64,
    first_failure: Option<ConsensusFailure>,
}

/// Abstract health: how often consensus has failed, up to the largest count, and
/// the category and detail of the first failure.
#[verifier::ext_equal]
pub struct HealthView {
    pub count: u64,
    pub first: Option<(Seq<char>, Seq<u8>)>,
}

impl HealthView {
    /// Nothing has failed.
    pub open spec fn healthy(self) -> bool {
        self.first is None
    }

    /// After a failure.
    pub open spec fn failed_with(self, kind: Seq<char>, detail: Seq<char>) -> HealthView {
        HealthView {
            count: if self.count < u64::MAX {
                (self.count + 1) as u64
            } else {
                u64::MAX
            },
            first: if self.first is None {
                Some((kind, kept_bytes(detail)))
            } else {
                self.first
            },
        }
    }
}

impl View for ConsensusHealth {
    type V = HealthView;

    closed spec fn view(&self) -> HealthView {
        HealthView {
            count: self.failure_count,
            first: match self.first_failure {
                Some(f) => Some((f.spec_kind(), f.spec_detail())),
                None => None,
            },
        }
    }
}

impl ConsensusHealth {
    /// The failed flag, the first failure and the count agree.
    pub closed spec fn wf(&self) -> bool {
        &&& self.failed == (self.first_failure is Some)
        &&& self.failed == (self.failure_count > 0)
    }

    /// Nothing has failed yet.
    pub fn new() -> (h: ConsensusHealth)
        ensures
            h.wf(),
            h@ == (HealthView { count: 0, first: None }),
    {
        ConsensusHealth { failed: false, failure_count: 0, first_failure: None }
    }

    /// Record a fatal failure; `true` only for the first.
    pub fn fail(&mut self, kind: &'static str, detail: &str) -> (first: bool)
        requires
            old(self).wf(),
        ensures
            final(self).wf(),
            final(self)@ == old(self)@.failed_with(kind@, detail@),
            first == old(self)@.healthy(),
    {
        self.failure_count = self.failure_count.saturating_add(1);
        let first: bool = self.first_failure.is_none();
        if first {
            self.first_failure = Some(
                ConsensusFailure { kind, detail: BoundedDiagnostic::from_args(detail) },
            );
        }
        self.failed = true;
        first
    }

    /// Whether nothing has failed.
    pub fn is_healthy(&self) -> (b: bool)
        requires
            self.wf(),
        ensures
            b == self@.healthy(),
    {
        !self.failed
    }

    /// The first failure.
    pub fn failure(&self) -> (r: Option<&ConsensusFailure>)
        ensures
            match r {
                Some(f) => self@.first == Some((f.spec_kind(), f.spec_detail())),
                None => self@.first is None,
            },
    {
        self.first_failure.as_ref()
    }

    /// How often consensus has failed.
    pub fn failure_count(&self) -> (n: u64)
        ensures
            n == self@.count,
    {
        self.failure_count
    }
}

impl Default for ConsensusHealth {
    fn default() -> (h: Self)
        ensures
            h.wf(),
            h@ == (HealthView { count: 0, first: None }),
    {
        Self::new()
    }
}

/// Failure is final, the first failure stays, and the count never goes down.
pub proof fn failure_is_final(h: HealthView, kind: Seq<char>, detail: Seq<char>)
    ensures
        !h.failed_with(kind, detail).healthy(),
        h.first is Some ==> h.failed_with(kind, detail).first == h.first,
        h.failed_with(kind, detail).count >= h.count,
        h.failed_with(kind, detail).count > h.count || h.count == u64::MAX,
{
}

/// What is kept of a diagnostic is a prefix of it, within the capacity, and all
/// of it where it fits.
pub proof fn diagnostics_are_bounded_prefixes(text: Seq<char>)
    ensures
        kept_bytes(text).len() <= CONSENSUS_DIAGNOSTIC_CAPACITY,
        kept_bytes(text).is_prefix_of(vstd::utf8::encode_utf8(text)),
        vstd::utf8::encode_utf8(text).len() <= CONSENSUS_DIAGNOSTIC_CAPACITY ==> kept_bytes(text)
            == vstd::utf8::encode_utf8(text),
{
    let bytes = vstd::utf8::encode_utf8(text);
    lemma_boundary_range(bytes, CONSENSUS_DIAGNOSTIC_CAPACITY as int);
    assert(bytes.take(bytes.len() as int) =~= bytes);
}

proof fn lemma_boundary_range(bytes: Seq<u8>, at: int)
    requires
        0 <= at,
    ensures
        0 <= boundary_before(bytes, at) <= at,
    decreases at,
{
    if at > 0 && !vstd::utf8::is_char_boundary(bytes, at) {
        lemma_boundary_range(bytes, at - 1);
    }
}

/// A failure is counted, up to the largest count. The first is kept by its kind and by what
/// fits of its detail; a later one replaces nothing.
pub proof fn the_first_failure_is_kept(h: HealthView, kind: Seq<char>, detail: Seq<char>)
    ensures
        h.healthy() <==> h.first is None,
        h.first is None ==> h.failed_with(kind, detail).first == Some((kind, kept_bytes(detail))),
        h.first is Some ==> h.failed_with(kind, detail).first == h.first,
        h.count < u64::MAX ==> h.failed_with(kind, detail).count == h.count + 1,
        h.count == u64::MAX ==> h.failed_with(kind, detail).count == u64::MAX,
{
}

/// As much of a text is kept as fits in whole characters: it is cut at the end of a
/// character, and at no earlier one than it has to be; a text that fits is kept whole.
pub proof fn texts_are_cut_between_characters(text: Seq<char>, available: int, k: int)
    requires
        0 <= available,
    ensures
        ({
            let bytes = vstd::utf8::encode_utf8(text);
            let kept = fitting_bytes(text, available);
            &&& kept.len() <= available && kept.len() <= bytes.len()
            &&& kept == bytes.take(kept.len() as int)
            &&& bytes.len() <= available ==> kept == bytes
            &&& bytes.len() > available && kept.len() > 0 ==> vstd::utf8::is_char_boundary(
                bytes,
                kept.len() as int,
            )
            &&& bytes.len() > available && kept.len() < k <= available
                ==> !vstd::utf8::is_char_boundary(bytes, k)
        }),
{
    let bytes = vstd::utf8::encode_utf8(text);
    lemma_boundary_range(bytes, available);
    lemma_boundary_last(bytes, available, k);
    assert(bytes.take(bytes.len() as int) =~= bytes);
}

proof fn lemma_boundary_last(bytes: Seq<u8>, at: int, k: int)
    requires
        0 <= at,
    ensures
        boundary_before(bytes, at) > 0 ==> vstd::utf8::is_char_boundary(
            bytes,
            boundary_before(bytes, at),
        ),
        boundary_before(bytes, at) < k <= at ==> !vstd::utf8::is_char_boundary(bytes, k),
    decreases at,
{
    if at > 0 && !vstd::utf8::is_char_boundary(bytes, at) {
        lemma_boundary_last(bytes, at - 1, k);
    }
}

/// A diagnostic keeps what fits into a kilobyte.
pub proof fn diagnostics_keep_a_kilobyte(text: Seq<char>)
    ensures
        kept_bytes(text) == fitting_bytes(text, 1024),
{
}

} // verus!

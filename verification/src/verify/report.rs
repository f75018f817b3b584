//! What verification concludes, and what it tells its caller on the way.

use vstd::prelude::*;

use crate::arn::Arn;
use crate::error::{copied_text, optional_text, Error, ErrorKind};
use crate::hash::{digest_matches, digest_view, same_but_for_case, Digest, DigestView};
use crate::model::{HashAlgorithm, ObjectRole, StoredHash, StoredHashView};
use crate::text;

verus! {

/// Why a recorded digest was not recomputed.
#[derive(Debug, Clone, Copy, PartialEq, Eq, Structural)]
pub enum Declined {
    /// The bytes it covers could not be retrieved: a finding about the evidence.
    Unreadable,
    /// The container is intact and this library cannot do the arithmetic.
    NotSupported,
}

/// The result of one comparison.
#[derive(Debug, Clone, PartialEq, Eq)]
pub enum Outcome {
    /// Recomputed, and the recorded value.
    Match,
    /// Recomputed, and not the recorded value.
    Mismatch,
    /// Not recomputed.
    NotVerifiable {
        /// Why not, in words.
        reason: String,
        /// Whether that says something about the evidence.
        cause: Declined,
    },
}

/// What an [`Outcome`] says, as plain values.
#[verifier::ext_equal]
pub enum OutcomeView {
    /// Recomputed, and the recorded value.
    Match,
    /// Recomputed, and not the recorded value.
    Mismatch,
    /// Not recomputed.
    NotVerifiable {
        /// Why not, in words.
        reason: Seq<char>,
        /// Whether that says something about the evidence.
        cause: Declined,
    },
}

impl View for Outcome {
    type V = OutcomeView;

    open spec fn view(&self) -> OutcomeView {
        match self {
            Outcome::Match => OutcomeView::Match,
            Outcome::Mismatch => OutcomeView::Mismatch,
            Outcome::NotVerifiable { reason, cause } => OutcomeView::NotVerifiable {
                reason: reason@,
                cause: *cause,
            },
        }
    }
}

impl OutcomeView {
    /// Whether a digest was recomputed and compared.
    pub open spec fn checked(self) -> bool {
        self is Match || self is Mismatch
    }

    /// Whether the bytes covered could not be retrieved.
    pub open spec fn unreadable(self) -> bool {
        self is NotVerifiable && self->cause == Declined::Unreadable
    }
}

impl Outcome {
    /// Whether this is a mismatch.
    pub fn is_mismatch(&self) -> (r: bool)
        ensures
            r == (self@ is Mismatch),
    {
        match self {
            Outcome::Mismatch => true,
            _ => false,
        }
    }

    /// Whether this is a match.
    pub fn is_match(&self) -> (r: bool)
        ensures
            r == (self@ is Match),
    {
        match self {
            Outcome::Match => true,
            _ => false,
        }
    }

    /// Whether a digest was recomputed and compared.
    pub fn was_checked(&self) -> (r: bool)
        ensures
            r == self@.checked(),
    {
        match self {
            Outcome::Match => true,
            Outcome::Mismatch => true,
            Outcome::NotVerifiable { .. } => false,
        }
    }

    /// Whether the bytes covered could not be retrieved.
    pub fn is_unreadable(&self) -> (r: bool)
        ensures
            r == self@.unreadable(),
    {
        match self {
            Outcome::NotVerifiable { reason: _, cause } => match cause {
                Declined::Unreadable => true,
                Declined::NotSupported => false,
            },
            _ => false,
        }
    }
}

/// Whether a read failure is a finding about the evidence or a limit of this
/// library: only an unsupported capability is the latter.
pub open spec fn failure_cause(kind: ErrorKind) -> Declined {
    if kind == ErrorKind::Unsupported {
        Declined::NotSupported
    } else {
        Declined::Unreadable
    }
}

/// Whether a read failure is a finding about the evidence or a limit of this
/// library.
pub fn classify_read_failure(error: &Error) -> (r: Declined)
    ensures
        r == failure_cause(error@.kind),
{
    match error.kind {
        ErrorKind::Unsupported => Declined::NotSupported,
        _ => Declined::Unreadable,
    }
}

/// What a digest is a digest of.
#[derive(Debug, Clone, Copy, PartialEq, Eq, Structural)]
pub enum Coverage {
    /// The stored bytes of a stream, without described runs.
    StoredStream,
    /// Every byte of the image as an examiner sees it.
    WholeImage,
    /// The bytes of one segment.
    Segment,
    /// A construction over other digests.
    Composite,
    /// One chunk of a stream.
    Block,
    /// A recorded digest whose input is not known.
    Unidentified,
}

/// The short phrase a report uses for what a digest covers.
pub open spec fn coverage_text(c: Coverage) -> Seq<char> {
    match c {
        Coverage::StoredStream => "the stream's stored bytes"@,
        Coverage::WholeImage => "the whole image, stored and described"@,
        Coverage::Segment => "one segment's bytes"@,
        Coverage::Composite => "a construction over other digests"@,
        Coverage::Block => "one chunk"@,
        Coverage::Unidentified => "an input aff4tools has not identified"@,
    }
}

impl Coverage {
    /// A short phrase for a report.
    pub fn describe(self) -> (r: &'static str)
        ensures
            r@ == coverage_text(self),
    {
        match self {
            Coverage::StoredStream => "the stream's stored bytes",
            Coverage::WholeImage => "the whole image, stored and described",
            Coverage::Segment => "one segment's bytes",
            Coverage::Composite => "a construction over other digests",
            Coverage::Block => "one chunk",
            Coverage::Unidentified => "an input aff4tools has not identified",
        }
    }
}

/// One digest, recomputed and compared.
#[derive(Debug)]
pub struct HashCheck {
    /// The object the digest belongs to.
    pub subject: Arn,
    /// What kind of object that is.
    pub role: ObjectRole,
    /// The property the digest was recorded under.
    pub predicate: String,
    /// The algorithm the recorded datatype names.
    pub algorithm: HashAlgorithm,
    /// What the digest covers.
    pub coverage: Coverage,
    /// The recorded digest, at full length.
    pub expected: String,
    /// The recomputed digest, at full length; empty if not recomputed.
    pub actual: String,
    /// The conclusion.
    pub outcome: Outcome,
    /// How many digests this one check covers, when it covers many.
    pub digests_covered: Option<usize>,
}

/// What a [`HashCheck`] says, as plain values.
#[verifier::ext_equal]
pub struct CheckView {
    /// The object the digest belongs to.
    pub subject: Seq<char>,
    /// What kind of object that is.
    pub role: ObjectRole,
    /// The property the digest was recorded under.
    pub predicate: Seq<char>,
    /// The algorithm the recorded datatype names.
    pub algorithm: HashAlgorithm,
    /// What the digest covers.
    pub coverage: Coverage,
    /// The recorded digest, at full length.
    pub expected: Seq<char>,
    /// The recomputed digest, at full length; empty if not recomputed.
    pub actual: Seq<char>,
    /// The conclusion.
    pub outcome: OutcomeView,
    /// How many digests this one check covers, when it covers many.
    pub digests_covered: Option<usize>,
}

impl View for HashCheck {
    type V = CheckView;

    open spec fn view(&self) -> CheckView {
        CheckView {
            subject: self.subject@,
            role: self.role,
            predicate: self.predicate@,
            algorithm: self.algorithm,
            coverage: self.coverage,
            expected: self.expected@,
            actual: self.actual@,
            outcome: self.outcome@,
            digests_covered: self.digests_covered,
        }
    }
}

/// The conclusion drawn from comparing two values.
pub open spec fn verdict(equal: bool) -> OutcomeView {
    if equal {
        OutcomeView::Match
    } else {
        OutcomeView::Mismatch
    }
}

/// A comparison of a computed value with a recorded digest.
pub open spec fn check_of(
    subject: Seq<char>,
    role: ObjectRole,
    stored: StoredHashView,
    coverage: Coverage,
    actual: Seq<char>,
    outcome: OutcomeView,
) -> CheckView {
    CheckView {
        subject,
        role,
        predicate: stored.predicate,
        algorithm: stored.algorithm,
        coverage,
        expected: stored.hex,
        actual,
        outcome,
        digests_covered: None,
    }
}

/// A comparison of a computed digest with a recorded one.
pub open spec fn compared_check(
    subject: Seq<char>,
    role: ObjectRole,
    stored: StoredHashView,
    coverage: Coverage,
    computed: DigestView,
) -> CheckView {
    check_of(
        subject,
        role,
        stored,
        coverage,
        computed.hex,
        verdict(digest_matches(computed, stored)),
    )
}

/// A recorded digest that was not recomputed.
pub open spec fn skipped_check(
    subject: Seq<char>,
    role: ObjectRole,
    stored: StoredHashView,
    coverage: Coverage,
    reason: Seq<char>,
    cause: Declined,
) -> CheckView {
    check_of(
        subject,
        role,
        stored,
        coverage,
        Seq::empty(),
        OutcomeView::NotVerifiable { reason, cause },
    )
}

/// A recorded digest that this library cannot recompute.
pub open spec fn declined_check(
    subject: Seq<char>,
    role: ObjectRole,
    stored: StoredHashView,
    coverage: Coverage,
    reason: Seq<char>,
) -> CheckView {
    skipped_check(subject, role, stored, coverage, reason, Declined::NotSupported)
}

impl HashCheck {
    /// A comparison of a value already computed with a recorded digest.
    pub(crate) fn concluded(
        subject: &Arn,
        role: ObjectRole,
        stored: &StoredHash,
        coverage: Coverage,
        actual: String,
        outcome: Outcome,
    ) -> (r: Self)
        ensures
            r@ == check_of(subject@, role, stored@, coverage, actual@, outcome@),
    {
        HashCheck {
            subject: subject.clone(),
            role,
            predicate: stored.predicate.clone(),
            algorithm: stored.algorithm,
            coverage,
            expected: stored.hex.clone(),
            actual,
            outcome,
            digests_covered: None,
        }
    }

    /// A comparison of a computed digest with a recorded one.
    pub fn compared(
        subject: &Arn,
        role: ObjectRole,
        stored: &StoredHash,
        coverage: Coverage,
        computed: &Digest,
    ) -> (r: Self)
        ensures
            r@ == compared_check(subject@, role, stored@, coverage, computed@),
    {
        let outcome = if computed.matches(stored) {
            Outcome::Match
        } else {
            Outcome::Mismatch
        };
        HashCheck::concluded(subject, role, stored, coverage, text::owned(computed.hex()), outcome)
    }

    /// A recorded digest that this library cannot recompute.
    pub fn declined(
        subject: &Arn,
        role: ObjectRole,
        stored: &StoredHash,
        coverage: Coverage,
        reason: &str,
    ) -> (r: Self)
        ensures
            r@ == declined_check(subject@, role, stored@, coverage, reason@),
    {
        HashCheck::not_recomputed(subject, role, stored, coverage, reason, Declined::NotSupported)
    }

    /// A recorded digest that was not recomputed because a read failed.
    pub fn from_read_error(
        subject: &Arn,
        role: ObjectRole,
        stored: &StoredHash,
        coverage: Coverage,
        reason: &str,
        error: &Error,
    ) -> (r: Self)
        ensures
            r@ == skipped_check(
                subject@,
                role,
                stored@,
                coverage,
                reason@,
                failure_cause(error@.kind),
            ),
    {
        HashCheck::not_recomputed(
            subject,
            role,
            stored,
            coverage,
            reason,
            classify_read_failure(error),
        )
    }

    /// A recorded digest over bytes that could not be retrieved.
    pub fn unreadable(
        subject: &Arn,
        role: ObjectRole,
        stored: &StoredHash,
        coverage: Coverage,
        reason: &str,
    ) -> (r: Self)
        ensures
            r@ == skipped_check(subject@, role, stored@, coverage, reason@, Declined::Unreadable),
    {
        HashCheck::not_recomputed(subject, role, stored, coverage, reason, Declined::Unreadable)
    }

    /// A recorded digest that was not recomputed.
    pub(crate) fn not_recomputed(
        subject: &Arn,
        role: ObjectRole,
        stored: &StoredHash,
        coverage: Coverage,
        reason: &str,
        cause: Declined,
    ) -> (r: Self)
        ensures
            r@ == skipped_check(subject@, role, stored@, coverage, reason@, cause),
    {
        HashCheck::concluded(
            subject,
            role,
            stored,
            coverage,
            String::new(),
            Outcome::NotVerifiable { reason: text::owned(reason), cause },
        )
    }
}

/// What a list of checks says.
pub open spec fn check_views(list: Seq<HashCheck>) -> Seq<CheckView> {
    Seq::new(list.len(), |i: int| list[i]@)
}

/// What an image's address space is made of.
#[derive(Debug)]
pub struct ReadAccounting {
    /// Bytes read from a stream.
    pub stored: u64,
    /// Bytes of described runs.
    pub described: u64,
    /// Bytes of regions whose content is not known.
    pub unknown_placeholder: u64,
    /// Bytes no map entry covers.
    pub gap_filled: u64,
    /// What those bytes are filled from.
    pub gap_fill: Option<String>,
}

/// What a [`ReadAccounting`] says, as plain values.
#[verifier::ext_equal]
pub struct ReadAccountingView {
    /// Bytes read from a stream.
    pub stored: u64,
    /// Bytes of described runs.
    pub described: u64,
    /// Bytes of regions whose content is not known.
    pub unknown_placeholder: u64,
    /// Bytes no map entry covers.
    pub gap_filled: u64,
    /// What those bytes are filled from.
    pub gap_fill: Option<Seq<char>>,
}

impl View for ReadAccounting {
    type V = ReadAccountingView;

    open spec fn view(&self) -> ReadAccountingView {
        ReadAccountingView {
            stored: self.stored,
            described: self.described,
            unknown_placeholder: self.unknown_placeholder,
            gap_filled: self.gap_filled,
            gap_fill: optional_text(self.gap_fill),
        }
    }
}

/// The smaller of a sum and the largest 64-bit number.
pub open spec fn capped_sum(a: int, b: int) -> u64 {
    if a + b > u64::MAX {
        u64::MAX
    } else {
        (a + b) as u64
    }
}

impl ReadAccountingView {
    /// Every byte of the address space, whatever it is made of.
    pub open spec fn total(self) -> u64 {
        capped_sum(
            capped_sum(
                capped_sum(self.stored as int, self.described as int) as int,
                self.unknown_placeholder as int,
            ) as int,
            self.gap_filled as int,
        )
    }
}

impl ReadAccounting {
    /// A copy.
    pub fn duplicate(&self) -> (r: Self)
        ensures
            r@ == self@,
    {
        ReadAccounting {
            stored: self.stored,
            described: self.described,
            unknown_placeholder: self.unknown_placeholder,
            gap_filled: self.gap_filled,
            gap_fill: copied_text(&self.gap_fill),
        }
    }

    /// Every byte of the address space, whatever it is made of.
    pub fn total(&self) -> (r: u64)
        ensures
            r == self@.total(),
    {
        self.stored.saturating_add(self.described).saturating_add(
            self.unknown_placeholder,
        ).saturating_add(self.gap_filled)
    }
}

/// How much of one image was stored against described.
#[derive(Debug)]
pub struct ImageAccounting {
    /// The image.
    pub image: Arn,
    /// What its address space is made of.
    pub accounting: ReadAccounting,
    /// Whether the figures come from reading the image.
    pub traversed: bool,
}

/// What an [`ImageAccounting`] says, as plain values.
#[verifier::ext_equal]
pub struct ImageAccountingView {
    /// The image.
    pub image: Seq<char>,
    /// What its address space is made of.
    pub accounting: ReadAccountingView,
    /// Whether the figures come from reading the image.
    pub traversed: bool,
}

impl View for ImageAccounting {
    type V = ImageAccountingView;

    open spec fn view(&self) -> ImageAccountingView {
        ImageAccountingView {
            image: self.image@,
            accounting: self.accounting@,
            traversed: self.traversed,
        }
    }
}

/// What a list of accountings says.
pub open spec fn accounting_views(list: Seq<ImageAccounting>) -> Seq<ImageAccountingView> {
    Seq::new(list.len(), |i: int| list[i]@)
}

/// Everything verification concluded about one container.
#[derive(Debug)]
pub struct VerificationReport {
    /// The container's path.
    pub source_path: String,
    /// Every check, in the order performed.
    pub checks: Vec<HashCheck>,
    /// The composition of the bytes, per image.
    pub read_accounting: Vec<ImageAccounting>,
    /// Things worth saying that are not check results.
    pub notes: Vec<String>,
    /// Whether per-chunk digests were recomputed.
    pub block_hashes_verified: bool,
}

/// What a [`VerificationReport`] says, as plain values.
#[verifier::ext_equal]
pub struct ReportView {
    /// The container's path.
    pub source_path: Seq<char>,
    /// Every check, in the order performed.
    pub checks: Seq<CheckView>,
    /// The composition of the bytes, per image.
    pub read_accounting: Seq<ImageAccountingView>,
    /// Things worth saying that are not check results.
    pub notes: Seq<Seq<char>>,
    /// Whether per-chunk digests were recomputed.
    pub block_hashes_verified: bool,
}

impl View for VerificationReport {
    type V = ReportView;

    open spec fn view(&self) -> ReportView {
        ReportView {
            source_path: self.source_path@,
            checks: check_views(self.checks@),
            read_accounting: accounting_views(self.read_accounting@),
            notes: text::texts(self.notes@),
            block_hashes_verified: self.block_hashes_verified,
        }
    }
}

impl ReportView {
    /// The report with one more check.
    pub open spec fn check(self, check: CheckView) -> ReportView {
        ReportView { checks: self.checks.push(check), ..self }
    }

    /// The report with more checks.
    pub open spec fn all_checks(self, checks: Seq<CheckView>) -> ReportView {
        ReportView { checks: self.checks + checks, ..self }
    }

    /// The report with one more note.
    pub open spec fn note(self, note: Seq<char>) -> ReportView {
        ReportView { notes: self.notes.push(note), ..self }
    }

    /// The report with one more accounting.
    pub open spec fn account(self, entry: ImageAccountingView) -> ReportView {
        ReportView { read_accounting: self.read_accounting.push(entry), ..self }
    }

    /// The report with an image's accountings replaced by one.
    pub open spec fn reaccount(self, entry: ImageAccountingView) -> ReportView {
        ReportView {
            read_accounting: others(self.read_accounting, entry.image).push(entry),
            ..self
        }
    }
}

/// The accountings of every image but one.
pub open spec fn others(list: Seq<ImageAccountingView>, image: Seq<char>) -> Seq<ImageAccountingView>
    decreases list.len(),
{
    if list.len() == 0 {
        Seq::empty()
    } else {
        let before = others(list.drop_last(), image);
        if list.last().image == image {
            before
        } else {
            before.push(list.last())
        }
    }
}

/// How many checks of a list have a property.
pub open spec fn count_of(checks: Seq<CheckView>, property: spec_fn(CheckView) -> bool) -> nat
    decreases checks.len(),
{
    if checks.len() == 0 {
        0
    } else {
        count_of(checks.drop_last(), property) + if property(checks.last()) {
            1nat
        } else {
            0nat
        }
    }
}

/// How many digests the checks that ran cover, where a check covers many.
pub open spec fn digests_covered_by(checks: Seq<CheckView>) -> nat
    decreases checks.len(),
{
    if checks.len() == 0 {
        0
    } else {
        digests_covered_by(checks.drop_last()) + match checks.last().digests_covered {
            Some(n) => if checks.last().outcome.checked() {
                n as nat
            } else {
                0
            },
            None => 0,
        }
    }
}

/// A count is no larger than the list, and something is counted exactly where
/// something has the property.
pub proof fn count_facts(checks: Seq<CheckView>, property: spec_fn(CheckView) -> bool)
    ensures
        count_of(checks, property) <= checks.len(),
        count_of(checks, property) > 0 <==> exists|i: int|
            0 <= i < checks.len() && property(#[trigger] checks[i]),
    decreases checks.len(),
{
    if checks.len() > 0 {
        let shorter = checks.drop_last();
        count_facts(shorter, property);
        if property(checks.last()) {
            assert(property(checks[checks.len() - 1]));
        }
        if count_of(shorter, property) > 0 {
            let i = choose|i: int| 0 <= i < shorter.len() && property(#[trigger] shorter[i]);
            assert(property(checks[i]));
        }
        if exists|i: int| 0 <= i < checks.len() && property(#[trigger] checks[i]) {
            let i = choose|i: int| 0 <= i < checks.len() && property(#[trigger] checks[i]);
            if i < shorter.len() {
                assert(property(shorter[i]));
            }
        }
    }
}

/// Every digest that was recomputed either matched or did not, and none counts as
/// both.
pub proof fn comparisons_are_decided(checks: Seq<CheckView>)
    ensures
        count_of(checks, |c: CheckView| c.outcome.checked()) == count_of(
            checks,
            |c: CheckView| c.outcome is Match,
        ) + count_of(checks, |c: CheckView| c.outcome is Mismatch),
    decreases checks.len(),
{
    if checks.len() > 0 {
        comparisons_are_decided(checks.drop_last());
    }
}

/// A digest that was not recomputed reads neither as a match nor as a mismatch, and
/// shows no value.
pub proof fn unrun_checks_conclude_nothing(
    subject: Seq<char>,
    role: ObjectRole,
    stored: StoredHashView,
    coverage: Coverage,
    reason: Seq<char>,
    cause: Declined,
)
    ensures
        ({
            let check = skipped_check(subject, role, stored, coverage, reason, cause);
            &&& !check.outcome.checked()
            &&& !(check.outcome is Match)
            &&& !(check.outcome is Mismatch)
            &&& check.actual.len() == 0
        }),
{
}

/// A digest that was recorded of some bytes matches those bytes, in either case of
/// its letters, and a digest recorded under another algorithm does not, whatever its
/// value.
pub proof fn recorded_digests_match(
    subject: Seq<char>,
    role: ObjectRole,
    stored: StoredHashView,
    coverage: Coverage,
    a: HashAlgorithm,
    data: Seq<u8>,
)
    ensures
        stored.algorithm == a && same_but_for_case(digest_view(a, data).hex, stored.hex)
            ==> compared_check(subject, role, stored, coverage, digest_view(a, data)).outcome
            is Match,
        stored.algorithm != a ==> compared_check(
            subject,
            role,
            stored,
            coverage,
            digest_view(a, data),
        ).outcome is Mismatch,
{
}

/// The sum over a list is at least the sum over a prefix of it.
proof fn digests_covered_grow(checks: Seq<CheckView>, k: int)
    requires
        0 <= k <= checks.len(),
    ensures
        digests_covered_by(checks.take(k)) <= digests_covered_by(checks),
    decreases checks.len() - k,
{
    if k == checks.len() {
        assert(checks.take(k) == checks);
    } else {
        digests_covered_grow(checks, k + 1);
        assert(checks.take(k + 1).drop_last() == checks.take(k));
    }
}

impl VerificationReport {
    /// Whether any recomputed digest failed to match.
    pub fn has_mismatch(&self) -> (r: bool)
        ensures
            r <==> exists|i: int|
                0 <= i < self@.checks.len() && (#[trigger] self@.checks[i]).outcome is Mismatch,
    {
        let mut i: usize = 0;
        while i < self.checks.len()
            invariant
                i <= self.checks.len(),
                forall|k: int| 0 <= k < i ==> !((#[trigger] self@.checks[k]).outcome is Mismatch),
            decreases self.checks.len() - i,
        {
            if self.checks[i].outcome.is_mismatch() {
                proof {
                    assert(self@.checks[i as int].outcome is Mismatch);
                }
                return true;
            }
            i = i + 1;
        }
        false
    }

    /// How many digests were recomputed and compared.
    pub fn checked_count(&self) -> (r: usize)
        ensures
            r == count_of(self@.checks, |c: CheckView| c.outcome.checked()),
    {
        let mut n: usize = 0;
        let mut i: usize = 0;
        while i < self.checks.len()
            invariant
                i <= self.checks.len(),
                n <= i,
                n == count_of(self@.checks.take(i as int), |c: CheckView| c.outcome.checked()),
            decreases self.checks.len() - i,
        {
            proof {
                assert(self@.checks.take(i + 1).drop_last() == self@.checks.take(i as int));
                assert(self@.checks.take(i + 1).last() == self.checks@[i as int]@);
            }
            if self.checks[i].outcome.was_checked() {
                n = n + 1;
            }
            i = i + 1;
        }
        proof {
            assert(self@.checks.take(i as int) == self@.checks);
        }
        n
    }

    /// How many digests matched.
    pub fn match_count(&self) -> (r: usize)
        ensures
            r == count_of(self@.checks, |c: CheckView| c.outcome is Match),
    {
        let mut n: usize = 0;
        let mut i: usize = 0;
        while i < self.checks.len()
            invariant
                i <= self.checks.len(),
                n <= i,
                n == count_of(self@.checks.take(i as int), |c: CheckView| c.outcome is Match),
            decreases self.checks.len() - i,
        {
            proof {
                assert(self@.checks.take(i + 1).drop_last() == self@.checks.take(i as int));
                assert(self@.checks.take(i + 1).last() == self.checks@[i as int]@);
            }
            if self.checks[i].outcome.is_match() {
                n = n + 1;
            }
            i = i + 1;
        }
        proof {
            assert(self@.checks.take(i as int) == self@.checks);
        }
        n
    }

    /// How many were recorded but not recomputed.
    pub fn not_verifiable_count(&self) -> (r: usize)
        ensures
            r == self@.checks.len() - count_of(self@.checks, |c: CheckView| c.outcome.checked()),
    {
        proof {
            count_facts(self@.checks, |c: CheckView| c.outcome.checked());
        }
        self.checks.len() - self.checked_count()
    }

    /// How many single recorded values were recomputed and compared.
    pub fn recorded_value_count(&self) -> (r: usize)
        ensures
            r == count_of(
                self@.checks,
                |c: CheckView| c.outcome.checked() && c.digests_covered is None,
            ),
    {
        let mut n: usize = 0;
        let mut i: usize = 0;
        while i < self.checks.len()
            invariant
                i <= self.checks.len(),
                n <= i,
                n == count_of(
                    self@.checks.take(i as int),
                    |c: CheckView| c.outcome.checked() && c.digests_covered is None,
                ),
            decreases self.checks.len() - i,
        {
            proof {
                assert(self@.checks.take(i + 1).drop_last() == self@.checks.take(i as int));
                assert(self@.checks.take(i + 1).last() == self.checks@[i as int]@);
            }
            if self.checks[i].outcome.was_checked() && self.checks[i].digests_covered.is_none() {
                n = n + 1;
            }
            i = i + 1;
        }
        proof {
            assert(self@.checks.take(i as int) == self@.checks);
        }
        n
    }

    /// How many per-chunk digests were recomputed and compared in total.
    pub fn chunk_digest_count(&self) -> (r: usize)
        requires
            digests_covered_by(self@.checks) <= usize::MAX,
        ensures
            r == digests_covered_by(self@.checks),
    {
        let mut n: usize = 0;
        let mut i: usize = 0;
        while i < self.checks.len()
            invariant
                i <= self.checks.len(),
                digests_covered_by(self@.checks) <= usize::MAX,
                n == digests_covered_by(self@.checks.take(i as int)),
            decreases self.checks.len() - i,
        {
            proof {
                assert(self@.checks.take(i + 1).drop_last() == self@.checks.take(i as int));
                assert(self@.checks.take(i + 1).last() == self.checks@[i as int]@);
                digests_covered_grow(self@.checks, i + 1);
            }
            if self.checks[i].outcome.was_checked() {
                match self.checks[i].digests_covered {
                    Some(count) => {
                        n = n + count;
                    },
                    None => {},
                }
            }
            i = i + 1;
        }
        proof {
            assert(self@.checks.take(i as int) == self@.checks);
        }
        n
    }

    /// How many were not recomputed because the evidence could not be read.
    pub fn unreadable_count(&self) -> (r: usize)
        ensures
            r == count_of(self@.checks, |c: CheckView| c.outcome.unreadable()),
    {
        let mut n: usize = 0;
        let mut i: usize = 0;
        while i < self.checks.len()
            invariant
                i <= self.checks.len(),
                n <= i,
                n == count_of(self@.checks.take(i as int), |c: CheckView| c.outcome.unreadable()),
            decreases self.checks.len() - i,
        {
            proof {
                assert(self@.checks.take(i + 1).drop_last() == self@.checks.take(i as int));
                assert(self@.checks.take(i + 1).last() == self.checks@[i as int]@);
            }
            if self.checks[i].outcome.is_unreadable() {
                n = n + 1;
            }
            i = i + 1;
        }
        proof {
            assert(self@.checks.take(i as int) == self@.checks);
        }
        n
    }

    /// Whether any recorded digest covers bytes that could not be read.
    pub fn has_unreadable(&self) -> (r: bool)
        ensures
            r <==> exists|i: int|
                0 <= i < self@.checks.len() && (#[trigger] self@.checks[i]).outcome.unreadable(),
    {
        proof {
            let property = |c: CheckView| c.outcome.unreadable();
            count_facts(self@.checks, property);
            if count_of(self@.checks, property) > 0 {
                let i = choose|i: int|
                    0 <= i < self@.checks.len() && property(#[trigger] self@.checks[i]);
                assert(self@.checks[i].outcome.unreadable());
            }
            if exists|i: int|
                0 <= i < self@.checks.len() && (#[trigger] self@.checks[i]).outcome.unreadable() {
                let i = choose|i: int|
                    0 <= i < self@.checks.len() && (
                    #[trigger] self@.checks[i]).outcome.unreadable();
                assert(property(self@.checks[i]));
            }
        }
        self.unreadable_count() > 0
    }

    /// Record something worth saying that is not a check result.
    pub(crate) fn note(&mut self, note: String)
        ensures
            final(self)@ == old(self)@.note(note@),
    {
        self.notes.push(note);
        proof {
            assert(self@ == old(self)@.note(note@));
        }
    }

    /// Record what an image is made of.
    pub(crate) fn account(&mut self, entry: ImageAccounting)
        ensures
            final(self)@ == old(self)@.account(entry@),
    {
        self.read_accounting.push(entry);
        proof {
            assert(self@ == old(self)@.account(entry@));
        }
    }

    /// Record what an image is made of, in place of what was recorded before.
    pub(crate) fn reaccount(&mut self, entry: ImageAccounting)
        ensures
            final(self)@ == old(self)@.reaccount(entry@),
    {
        let mut kept: Vec<ImageAccounting> = Vec::new();
        let ghost all = self.read_accounting@;
        let mut given: Vec<ImageAccounting> = Vec::new();
        std::mem::swap(&mut given, &mut self.read_accounting);
        let ghost mut dropped: int = 0;
        let n = given.len();
        let mut i: usize = 0;
        // The entries are taken from the back, so the kept ones come out reversed.
        while i < n
            invariant
                i <= n == all.len(),
                given@ == all.take(n - i),
                accounting_views(kept@).reverse() == others(
                    accounting_views(all).skip(n - i),
                    entry.image@,
                ),
                self.source_path == old(self).source_path,
                self.checks == old(self).checks,
                self.notes == old(self).notes,
                self.block_hashes_verified == old(self).block_hashes_verified,
                self.read_accounting@.len() == 0,
            decreases n - i,
        {
            let ghost before = kept@;
            let ghost at: int = n - i - 1;
            match given.pop() {
                Some(e) => {
                    proof {
                        assert(e == all[at]);
                        others_front(accounting_views(all).skip(at), entry.image@);
                        assert(accounting_views(all).skip(at).skip(1) == accounting_views(
                            all,
                        ).skip(at + 1));
                        assert(all.take(n - i).drop_last() == all.take(at));
                    }
                    if !text::same(e.image.as_str(), entry.image.as_str()) {
                        kept.push(e);
                        proof {
                            assert(accounting_views(kept@) == accounting_views(before).push(e@));
                            assert(accounting_views(kept@).reverse() == seq![e@]
                                + accounting_views(before).reverse());
                        }
                    }
                },
                None => {},
            }
            i = i + 1;
        }
        let mut j: usize = 0;
        let ghost reversed = kept@;
        let m = kept.len();
        proof {
            assert(accounting_views(all).skip(0) == accounting_views(all));
        }
        while j < m
            invariant
                j <= m == reversed.len(),
                kept@ == reversed.take(m - j),
                accounting_views(self.read_accounting@) == accounting_views(
                    reversed,
                ).reverse().take(j as int),
                self.source_path == old(self).source_path,
                self.checks == old(self).checks,
                self.notes == old(self).notes,
                self.block_hashes_verified == old(self).block_hashes_verified,
            decreases m - j,
        {
            let ghost before = self.read_accounting@;
            match kept.pop() {
                Some(e) => {
                    self.read_accounting.push(e);
                    proof {
                        assert(e == reversed[m - j - 1]);
                        assert(reversed.take(m - j).drop_last() == reversed.take(m - j - 1));
                        assert(accounting_views(self.read_accounting@) == accounting_views(
                            before,
                        ).push(e@));
                        assert(accounting_views(reversed).reverse().take(j + 1)
                            == accounting_views(reversed).reverse().take(j as int).push(e@));
                    }
                },
                None => {},
            }
            j = j + 1;
        }
        proof {
            assert(accounting_views(reversed).reverse().take(j as int) == accounting_views(
                reversed,
            ).reverse());
        }
        let ghost settled = self.read_accounting@;
        self.read_accounting.push(entry);
        proof {
            assert(accounting_views(self.read_accounting@) == accounting_views(settled).push(entry@));
            assert(self@ == old(self)@.reaccount(entry@));
        }
    }
}

/// Leaving out an image looks at the first entry and then at the rest.
proof fn others_front(list: Seq<ImageAccountingView>, image: Seq<char>)
    requires
        list.len() > 0,
    ensures
        others(list, image) == (if list[0].image == image {
            others(list.skip(1), image)
        } else {
            seq![list[0]] + others(list.skip(1), image)
        }),
    decreases list.len(),
{
    if list.len() == 1 {
        assert(list.drop_last() == Seq::<ImageAccountingView>::empty());
        assert(list.skip(1) == Seq::<ImageAccountingView>::empty());
        assert(others(list.drop_last(), image) == Seq::<ImageAccountingView>::empty());
        assert(others(list, image) =~= (if list[0].image == image {
            Seq::empty()
        } else {
            seq![list[0]]
        }));
    } else {
        others_front(list.drop_last(), image);
        assert(list.drop_last().skip(1) == list.skip(1).drop_last());
        assert(list.skip(1).last() == list.last());
        assert(list.drop_last()[0] == list[0]);
        assert(others(list, image) =~= (if list[0].image == image {
            others(list.skip(1), image)
        } else {
            seq![list[0]] + others(list.skip(1), image)
        }));
    }
}

/// What verification is doing.
#[derive(Debug)]
#[allow(inconsistent_fields)]
pub enum Progress<'a> {
    /// Work has begun on an object.
    ObjectStarted {
        /// The object.
        arn: &'a Arn,
        /// What kind of object it is.
        role: ObjectRole,
        /// How many bytes will be read, where that is known.
        total_bytes: Option<u64>,
    },
    /// Bytes have been read for the object in progress.
    Bytes {
        /// The object.
        arn: &'a Arn,
        /// Bytes delivered so far.
        done: u64,
        /// The expected total, where known.
        total: Option<u64>,
    },
    /// A bevy has been delivered in full.
    BevyCompleted {
        /// The stream.
        arn: &'a Arn,
        /// Bevies delivered so far.
        done: u64,
        /// How many the stream has.
        total: u64,
    },
    /// A digest has been recomputed and compared, or declined.
    CheckCompleted {
        /// The finished check.
        check: &'a HashCheck,
    },
    /// Work on an object is finished.
    ObjectFinished {
        /// The object.
        arn: &'a Arn,
    },
}

/// What a [`Progress`] event says, as plain values.
#[verifier::ext_equal]
#[allow(inconsistent_fields)]
pub enum ProgressView {
    /// Work has begun on an object.
    ObjectStarted {
        /// The object.
        arn: Seq<char>,
        /// What kind of object it is.
        role: ObjectRole,
        /// How many bytes will be read, where that is known.
        total_bytes: Option<u64>,
    },
    /// Bytes have been read for the object in progress.
    Bytes {
        /// The object.
        arn: Seq<char>,
        /// Bytes delivered so far.
        done: u64,
        /// The expected total, where known.
        total: Option<u64>,
    },
    /// A bevy has been delivered in full.
    BevyCompleted {
        /// The stream.
        arn: Seq<char>,
        /// Bevies delivered so far.
        done: u64,
        /// How many the stream has.
        total: u64,
    },
    /// A digest has been recomputed and compared, or declined.
    CheckCompleted {
        /// The finished check.
        check: CheckView,
    },
    /// Work on an object is finished.
    ObjectFinished {
        /// The object.
        arn: Seq<char>,
    },
}

impl<'a> View for Progress<'a> {
    type V = ProgressView;

    open spec fn view(&self) -> ProgressView {
        match self {
            Progress::ObjectStarted { arn, role, total_bytes } => ProgressView::ObjectStarted {
                arn: arn@,
                role: *role,
                total_bytes: *total_bytes,
            },
            Progress::Bytes { arn, done, total } => ProgressView::Bytes {
                arn: arn@,
                done: *done,
                total: *total,
            },
            Progress::BevyCompleted { arn, done, total } => ProgressView::BevyCompleted {
                arn: arn@,
                done: *done,
                total: *total,
            },
            Progress::CheckCompleted { check } => ProgressView::CheckCompleted { check: check@ },
            Progress::ObjectFinished { arn } => ProgressView::ObjectFinished { arn: arn@ },
        }
    }
}

/// Receives [`Progress`] events during verification.
///
/// The log is for contracts alone: an implementation that nothing verifies leaves it
/// as it is.
pub trait ProgressObserver: Sized {
    /// Every event handed over, in order.
    open spec fn log(&self) -> Seq<ProgressView> {
        arbitrary()
    }

    /// Handle one event.
    fn on(&mut self, event: Progress<'_>)
        ensures
            final(self).log() == old(self).log().push(event@),
    ;
}

/// An observer that does nothing with what it is told.
pub struct NoProgress {
    log: Ghost<Seq<ProgressView>>,
}

impl NoProgress {
    /// An observer that has been told nothing.
    pub fn new() -> (r: Self)
        ensures
            r.log() == Seq::<ProgressView>::empty(),
    {
        NoProgress { log: Ghost(Seq::empty()) }
    }
}

impl ProgressObserver for NoProgress {
    closed spec fn log(&self) -> Seq<ProgressView> {
        self.log@
    }

    fn on(&mut self, event: Progress<'_>) {
        self.log = Ghost(self.log@.push(event@));
    }
}

/// The announcements of some checks.
pub open spec fn check_events(checks: Seq<CheckView>) -> Seq<ProgressView> {
    Seq::new(checks.len(), |i: int| ProgressView::CheckCompleted { check: checks[i] })
}

/// The checks that some announcements are of.
pub open spec fn told_checks(events: Seq<ProgressView>) -> Seq<CheckView>
    decreases events.len(),
{
    if events.len() == 0 {
        Seq::empty()
    } else {
        let before = told_checks(events.drop_last());
        match events.last() {
            ProgressView::CheckCompleted { check } => before.push(check),
            _ => before,
        }
    }
}

/// Announcements one after the other are of the checks of both.
pub proof fn told_checks_join(a: Seq<ProgressView>, b: Seq<ProgressView>)
    ensures
        told_checks(a + b) == told_checks(a) + told_checks(b),
    decreases b.len(),
{
    if b.len() == 0 {
        assert(a + b =~= a);
    } else {
        told_checks_join(a, b.drop_last());
        assert((a + b).drop_last() =~= a + b.drop_last());
        assert((a + b).last() == b.last());
    }
}

/// The announcements of some checks are of those checks.
pub proof fn told_checks_are_told(checks: Seq<CheckView>)
    ensures
        told_checks(check_events(checks)) == checks,
    decreases checks.len(),
{
    if checks.len() > 0 {
        told_checks_are_told(checks.drop_last());
        assert(check_events(checks).drop_last() =~= check_events(checks.drop_last()));
        assert(checks =~= checks.drop_last().push(checks.last()));
    }
}

/// Whether, between two moments, exactly the checks added to a report were
/// announced, in the order they were added, and nothing else.
pub open spec fn in_step(
    log0: Seq<ProgressView>,
    checks0: Seq<CheckView>,
    log1: Seq<ProgressView>,
    checks1: Seq<CheckView>,
) -> bool {
    &&& checks0.is_prefix_of(checks1)
    &&& log1 == log0 + check_events(checks1.skip(checks0.len() as int))
}

/// Being in step from one moment to the next and from there on is being in step.
pub proof fn in_step_chain(
    log0: Seq<ProgressView>,
    checks0: Seq<CheckView>,
    log1: Seq<ProgressView>,
    checks1: Seq<CheckView>,
    log2: Seq<ProgressView>,
    checks2: Seq<CheckView>,
)
    requires
        in_step(log0, checks0, log1, checks1),
        in_step(log1, checks1, log2, checks2),
    ensures
        in_step(log0, checks0, log2, checks2),
{
    let a = checks1.skip(checks0.len() as int);
    let b = checks2.skip(checks1.len() as int);
    assert(checks2.skip(checks0.len() as int) =~= a + b);
    assert(check_events(a + b) =~= check_events(a) + check_events(b));
    assert((log0 + check_events(a)) + check_events(b) =~= log0 + (check_events(a) + check_events(
        b,
    )));
}

/// Where nothing is added and nothing announced, the two are in step.
pub proof fn in_step_still(log: Seq<ProgressView>, checks: Seq<CheckView>)
    ensures
        in_step(log, checks, log, checks),
{
    assert(log + check_events(checks.skip(checks.len() as int)) =~= log);
}

/// A stretch of reading: how many checks a report held when it began, and what was
/// reported while it went on.
#[verifier::ext_equal]
pub struct Reading {
    /// How many checks the report held.
    pub after: nat,
    /// What was reported.
    pub events: Seq<ProgressView>,
}

/// Whether reports are all of how far reading has come.
pub open spec fn of_reading(events: Seq<ProgressView>) -> bool {
    forall|i: int| 0 <= i < events.len() ==> is_of_reading(#[trigger] events[i])
}

/// Whether a report is of how far reading has come.
pub open spec fn is_of_reading(event: ProgressView) -> bool {
    event is Bytes || event is BevyCompleted
}

/// Reports of how far reading has come announce no check.
pub proof fn reading_tells_no_check(events: Seq<ProgressView>)
    requires
        of_reading(events),
    ensures
        told_checks(events) == Seq::<CheckView>::empty(),
    decreases events.len(),
{
    if events.len() > 0 {
        reading_tells_no_check(events.drop_last());
        assert(is_of_reading(events[events.len() - 1]));
    }
}

/// What is reported around a stretch of reading announces the checks that were added.
pub proof fn told_around_reading(
    checks0: Seq<CheckView>,
    reading: Reading,
    checks1: Seq<CheckView>,
)
    requires
        of_reading(reading.events),
        checks0.is_prefix_of(checks1),
        checks0.len() <= reading.after <= checks1.len(),
    ensures
        checks0 + told_checks(around_reading(checks0, reading, checks1)) == checks1,
{
    let a = checks1.subrange(checks0.len() as int, reading.after as int);
    let b = checks1.skip(reading.after as int);
    told_checks_join(check_events(a) + reading.events, check_events(b));
    told_checks_join(check_events(a), reading.events);
    told_checks_are_told(a);
    told_checks_are_told(b);
    reading_tells_no_check(reading.events);
    assert(checks0 + (a + Seq::<CheckView>::empty() + b) =~= checks1);
}

/// A stretch of reading with nothing in it.
pub open spec fn no_reading(checks: Seq<CheckView>) -> Reading {
    Reading { after: checks.len(), events: Seq::empty() }
}

/// What was reported between two moments: the checks added before a stretch of
/// reading, the reading, and the checks added after it.
pub open spec fn around_reading(
    checks0: Seq<CheckView>,
    reading: Reading,
    checks1: Seq<CheckView>,
) -> Seq<ProgressView> {
    check_events(checks1.subrange(checks0.len() as int, reading.after as int)) + reading.events
        + check_events(checks1.skip(reading.after as int))
}

/// Whether, between two moments, exactly the checks added to a report were announced,
/// in the order they were added, and among them a stretch of reading in its place.
pub open spec fn in_step_reading(
    log0: Seq<ProgressView>,
    checks0: Seq<CheckView>,
    reading: Reading,
    log1: Seq<ProgressView>,
    checks1: Seq<CheckView>,
) -> bool {
    &&& checks0.is_prefix_of(checks1)
    &&& checks0.len() <= reading.after <= checks1.len()
    &&& of_reading(reading.events)
    &&& log1 == log0 + around_reading(checks0, reading, checks1)
}

/// Where nothing is read, being in step is being in step around no reading.
pub proof fn in_step_unread(
    log0: Seq<ProgressView>,
    checks0: Seq<CheckView>,
    log1: Seq<ProgressView>,
    checks1: Seq<CheckView>,
)
    requires
        in_step(log0, checks0, log1, checks1),
    ensures
        in_step_reading(log0, checks0, no_reading(checks0), log1, checks1),
{
    let reading = no_reading(checks0);
    assert(around_reading(checks0, reading, checks1) =~= check_events(
        checks1.skip(checks0.len() as int),
    ));
}

/// Being in step before a stretch of reading, and around it and after it, is being in
/// step around it.
pub proof fn in_step_before_reading(
    log0: Seq<ProgressView>,
    checks0: Seq<CheckView>,
    log1: Seq<ProgressView>,
    checks1: Seq<CheckView>,
    reading: Reading,
    log2: Seq<ProgressView>,
    checks2: Seq<CheckView>,
)
    requires
        in_step(log0, checks0, log1, checks1),
        in_step_reading(log1, checks1, reading, log2, checks2),
    ensures
        in_step_reading(log0, checks0, reading, log2, checks2),
{
    let a = checks1.skip(checks0.len() as int);
    let b = checks2.subrange(checks1.len() as int, reading.after as int);
    assert(checks2.subrange(checks0.len() as int, reading.after as int) =~= a + b);
    assert(check_events(a + b) =~= check_events(a) + check_events(b));
    assert(log2 =~= log0 + around_reading(checks0, reading, checks2));
}

/// Being in step around a stretch of reading and after it is being in step around it.
pub proof fn in_step_after_reading(
    log0: Seq<ProgressView>,
    checks0: Seq<CheckView>,
    reading: Reading,
    log1: Seq<ProgressView>,
    checks1: Seq<CheckView>,
    log2: Seq<ProgressView>,
    checks2: Seq<CheckView>,
)
    requires
        in_step_reading(log0, checks0, reading, log1, checks1),
        in_step(log1, checks1, log2, checks2),
    ensures
        in_step_reading(log0, checks0, reading, log2, checks2),
{
    let a = checks1.skip(reading.after as int);
    let b = checks2.skip(checks1.len() as int);
    assert(checks2.skip(reading.after as int) =~= a + b);
    assert(check_events(a + b) =~= check_events(a) + check_events(b));
    assert(checks1.subrange(checks0.len() as int, reading.after as int) =~= checks2.subrange(
        checks0.len() as int,
        reading.after as int,
    ));
    assert(log2 =~= log0 + around_reading(checks0, reading, checks2));
}

/// Reading alone is in step around itself.
pub proof fn in_step_of_reading(
    log: Seq<ProgressView>,
    checks: Seq<CheckView>,
    events: Seq<ProgressView>,
)
    requires
        of_reading(events),
    ensures
        in_step_reading(
            log,
            checks,
            Reading { after: checks.len(), events },
            log + events,
            checks,
        ),
{
    let reading = Reading { after: checks.len(), events };
    assert(around_reading(checks, reading, checks) =~= events);
}

/// Record a finished check and announce it.
pub(crate) fn push_check<P: ProgressObserver>(
    report: &mut VerificationReport,
    progress: &mut P,
    check: HashCheck,
)
    ensures
        final(report)@ == old(report)@.check(check@),
        in_step(
            old(progress).log(),
            old(report)@.checks,
            final(progress).log(),
            final(report)@.checks,
        ),
{
    progress.on(Progress::CheckCompleted { check: &check });
    report.checks.push(check);
    proof {
        assert(report@ == old(report)@.check(check@));
        assert(report@.checks.skip(old(report)@.checks.len() as int) =~= seq![check@]);
        assert(progress.log() =~= old(progress).log() + check_events(seq![check@]));
    }
}

} // verus!

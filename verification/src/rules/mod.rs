//! The conformance rules: what each document demands of a container, a reader or a
//! writer, and what is done about it here.

use vstd::prelude::*;

use crate::error::DeviationKind;
use crate::lexicon::Generation;
use crate::rules::catalog::{catalog, listed};
use crate::text;

pub mod catalog;
pub mod coverage;
pub mod render;
pub mod sound;

pub use coverage::Coverage;
pub use render::render_catalog;


verus! {

/// A document that demands something.
#[derive(Debug, Clone, Copy, PartialEq, Eq, Hash, Structural)]
pub enum Document {
    /// AFF4 Standard v1.0a. The base document.
    Aff4Standard10a,
    /// The AFF4-L paper of 2019. Governs the logical containers of its time.
    Aff4LPaper2019,
    /// AFF4-L Standard v1.0-ALPHA.
    Aff4LStandard10Alpha,
}

impl Document {
    /// Every document.
    pub const ALL: [Document; 3] = [
        Document::Aff4Standard10a,
        Document::Aff4LPaper2019,
        Document::Aff4LStandard10Alpha,
    ];

    /// The document's full name.
    pub open spec fn full_name(self) -> Seq<char> {
        match self {
            Document::Aff4Standard10a => "AFF4 Specification 1.0a"@,
            Document::Aff4LPaper2019 => "AFF4-L (Schatz, DFRWS USA 2019, Digital Investigation 29, S143-S149)"@,
            Document::Aff4LStandard10Alpha => "AFF4-L Standard v1.0-ALPHA"@,
        }
    }

    /// The document's name in rule identifiers.
    pub open spec fn brief_name(self) -> Seq<char> {
        match self {
            Document::Aff4Standard10a => "AFF4_V1_0A"@,
            Document::Aff4LPaper2019 => "AFF4L_PAPER_2019"@,
            Document::Aff4LStandard10Alpha => "AFF4L_V1_ALPHA"@,
        }
    }

    /// The document's full name, as a report prints it.
    pub fn name(self) -> (r: &'static str)
        ensures
            r@ == self.full_name(),
    {
        match self {
            Document::Aff4Standard10a => "AFF4 Specification 1.0a",
            Document::Aff4LPaper2019 => "AFF4-L (Schatz, DFRWS USA 2019, Digital Investigation 29, S143-S149)",
            Document::Aff4LStandard10Alpha => "AFF4-L Standard v1.0-ALPHA",
        }
    }

    /// The document's name in rule identifiers.
    pub fn short_name(self) -> (r: &'static str)
        ensures
            r@ == self.brief_name(),
    {
        match self {
            Document::Aff4Standard10a => "AFF4_V1_0A",
            Document::Aff4LPaper2019 => "AFF4L_PAPER_2019",
            Document::Aff4LStandard10Alpha => "AFF4L_V1_ALPHA",
        }
    }

    /// The document's full name.
    pub fn to_string(&self) -> (r: String)
        ensures
            r@ == self.full_name(),
    {
        text::owned(self.name())
    }
}

/// Which document, which clause and which requirement within the clause. A number
/// is never given to another requirement, so that an identifier in an old report
/// keeps its meaning.
#[derive(Debug, Clone, Copy, PartialEq, Eq, Hash)]
pub struct RuleId {
    /// The document.
    pub document: Document,
    /// The clause with its section sign, or `none` for what no clause says.
    pub clause: &'static str,
    /// Which requirement within the clause, from 1 on.
    pub ordinal: u16,
}

/// A clause without its section sign.
pub open spec fn bare_clause(clause: Seq<char>) -> Seq<char> {
    if text::has_prefix(clause, "§"@) {
        clause.skip("§"@.len() as int)
    } else {
        clause
    }
}

/// How a rule is called in reports.
pub open spec fn rule_name(id: RuleId) -> Seq<char> {
    id.document.brief_name() + "/"@ + bare_clause(id.clause@) + "/"@ + text::decimal(
        id.ordinal as nat,
    )
}

impl RuleId {
    /// Name a rule.
    pub fn new(document: Document, clause: &'static str, ordinal: u16) -> (r: Self)
        ensures
            r == (RuleId { document, clause, ordinal }),
    {
        RuleId { document, clause, ordinal }
    }

    /// The clause without its section sign.
    pub fn clause_number(&self) -> (r: &'static str)
        ensures
            r@ == bare_clause(self.clause@),
    {
        match text::strip_prefix(self.clause, "§") {
            Some(rest) => rest,
            None => self.clause,
        }
    }

    /// How the rule is called in reports.
    pub fn to_string(&self) -> (r: String)
        ensures
            r@ == rule_name(*self),
    {
        let ordinal = text::dec(self.ordinal as u64);
        text::cat5(
            self.document.short_name(),
            "/",
            self.clause_number(),
            "/",
            ordinal.as_str(),
        )
    }
}

/// What a document demands.
#[derive(Debug, Clone, Copy, PartialEq, Eq, Structural)]
pub enum Requirement {
    /// It is required.
    Must,
    /// It is prohibited.
    MustNot,
    /// It is recommended.
    Should,
    /// It is recommended against.
    ShouldNot,
    /// It is permitted.
    May,
}

impl Requirement {
    /// How the demand is spelled.
    pub open spec fn spelled(self) -> Seq<char> {
        match self {
            Requirement::Must => "MUST"@,
            Requirement::MustNot => "MUST NOT"@,
            Requirement::Should => "SHOULD"@,
            Requirement::ShouldNot => "SHOULD NOT"@,
            Requirement::May => "MAY"@,
        }
    }

    /// How the demand is spelled, as the documents spell it.
    pub fn as_str(self) -> (r: &'static str)
        ensures
            r@ == self.spelled(),
    {
        match self {
            Requirement::Must => "MUST",
            Requirement::MustNot => "MUST NOT",
            Requirement::Should => "SHOULD",
            Requirement::ShouldNot => "SHOULD NOT",
            Requirement::May => "MAY",
        }
    }

    /// Whether a container that departs from it does not conform: what is required
    /// binds, and so does what is prohibited.
    pub open spec fn binds(self) -> bool {
        self == Requirement::Must || self == Requirement::MustNot
    }

    /// Whether a container that departs from it does not conform.
    pub fn is_binding(self) -> (r: bool)
        ensures
            r == self.binds(),
    {
        self == Requirement::Must || self == Requirement::MustNot
    }
}

/// What is done about a rule here.
#[derive(Debug, Clone, Copy, PartialEq, Eq, Structural)]
pub enum RuleState {
    /// A container that breaks the rule is refused before any rule is checked.
    Enforced,
    /// A checker runs, and a departure becomes a deviation in the report.
    Detected,
    /// The rule holds without a check: it binds a reader or a writer that keeps it,
    /// or it is a permission that nothing can break.
    Honored,
    /// No checker exists yet.
    NotImplemented,
    /// No checker can exist, because the document leaves the question open.
    NotCheckable,
}

impl RuleState {
    /// How the state is spelled.
    pub open spec fn spelled(self) -> Seq<char> {
        match self {
            RuleState::Enforced => "enforced"@,
            RuleState::Detected => "detected"@,
            RuleState::Honored => "honored"@,
            RuleState::NotImplemented => "not implemented"@,
            RuleState::NotCheckable => "not checkable"@,
        }
    }

    /// How the state is spelled.
    pub fn as_str(self) -> (r: &'static str)
        ensures
            r@ == self.spelled(),
    {
        match self {
            RuleState::Enforced => "enforced",
            RuleState::Detected => "detected",
            RuleState::Honored => "honored",
            RuleState::NotImplemented => "not implemented",
            RuleState::NotCheckable => "not checkable",
        }
    }
}

/// Whom a rule binds.
#[derive(Debug, Clone, Copy, PartialEq, Eq, Structural)]
pub enum Governs {
    /// The content of a container.
    Container,
    /// A reader.
    Reader,
    /// A writer.
    Writer,
    /// A reader and a writer alike.
    ReaderWriter,
    /// Nobody that the document settles on.
    Unsettled,
}

impl Governs {
    /// How it is spelled.
    pub open spec fn spelled(self) -> Seq<char> {
        match self {
            Governs::Container => "container"@,
            Governs::Reader => "reader"@,
            Governs::Writer => "writer"@,
            Governs::ReaderWriter => "reader, writer"@,
            Governs::Unsettled => "-"@,
        }
    }

    /// Whether a reader is bound.
    pub open spec fn binds_reader(self) -> bool {
        self == Governs::Reader || self == Governs::ReaderWriter
    }

    /// Whether a reader or a writer is bound.
    pub open spec fn binds_behavior(self) -> bool {
        self == Governs::Reader || self == Governs::Writer || self == Governs::ReaderWriter
    }

    /// How it is spelled.
    pub fn as_str(self) -> (r: &'static str)
        ensures
            r@ == self.spelled(),
    {
        match self {
            Governs::Container => "container",
            Governs::Reader => "reader",
            Governs::Writer => "writer",
            Governs::ReaderWriter => "reader, writer",
            Governs::Unsettled => "-",
        }
    }

    /// Whether a reader is bound.
    pub fn includes_reader(self) -> (r: bool)
        ensures
            r == self.binds_reader(),
    {
        self == Governs::Reader || self == Governs::ReaderWriter
    }

    /// Whether a reader or a writer is bound, as opposed to the container or nobody.
    pub fn is_behavioral(self) -> (r: bool)
        ensures
            r == self.binds_behavior(),
    {
        self == Governs::Reader || self == Governs::Writer || self == Governs::ReaderWriter
    }
}

/// Everything known about a rule.
#[derive(Debug, Clone, Copy, PartialEq, Eq)]
pub struct RuleInfo {
    /// Which document, clause and requirement it is.
    pub id: RuleId,
    /// What the document demands.
    pub requirement: Requirement,
    /// What is done about it here.
    pub state: RuleState,
    /// Whom it binds.
    pub governs: Governs,
    /// The requirement in one sentence.
    pub statement: &'static str,
    /// The deviation that breaking it raises, where there is one.
    pub kind: Option<DeviationKind>,
    /// Whether the format produces the condition as a matter of course, so that it
    /// does not make a container questionable.
    pub routine: bool,
}

/// Declare a rule. Every field is given, so that no declaration takes one by
/// default.
#[verifier::allow_in_spec]
pub fn declare_rule(
    document: Document,
    clause: &'static str,
    ordinal: u16,
    requirement: Requirement,
    state: RuleState,
    governs: Governs,
    statement: &'static str,
    kind: Option<DeviationKind>,
    routine: bool,
) -> RuleInfo
    returns
        (RuleInfo {
            id: RuleId { document, clause, ordinal },
            requirement,
            state,
            governs,
            statement,
            kind,
            routine,
        }),
{
    RuleInfo {
        id: RuleId { document, clause, ordinal },
        requirement,
        state,
        governs,
        statement,
        kind,
        routine,
    }
}

/// Every rule of every document. A rule may cite a document that does not govern
/// the container in hand.
pub fn all_rules() -> (r: Vec<RuleInfo>)
    ensures
        r@ == catalog(),
{
    listed()
}

/// Whether a document governs a generation: the base always does, and what is
/// layered over it where something is.
pub open spec fn in_scope(generation: Generation, document: Document) -> bool {
    document == generation.documents().0 || Some(document) == generation.documents().1
}

/// Those of some rules whose document governs a generation.
pub open spec fn scoped(rules: Seq<RuleInfo>, generation: Generation) -> Seq<RuleInfo>
    decreases rules.len(),
{
    if rules.len() == 0 {
        Seq::empty()
    } else {
        let before = scoped(rules.drop_last(), generation);
        if in_scope(generation, rules.last().id.document) {
            before.push(rules.last())
        } else {
            before
        }
    }
}

/// Every rule whose document governs a container of a generation. What another
/// document says never applied to it.
pub fn rules_for_generation(generation: Generation) -> (r: Vec<RuleInfo>)
    ensures
        r@ == scoped(catalog(), generation),
{
    let rules = all_rules();
    let (base, layered) = generation.governing_spec();
    let mut out: Vec<RuleInfo> = Vec::new();
    let mut i: usize = 0;
    proof {
        assert(out@ =~= scoped(catalog().take(0), generation));
    }
    while i < rules.len()
        invariant
            i <= rules@.len(),
            rules@ == catalog(),
            (base, layered) == generation.documents(),
            out@ == scoped(catalog().take(i as int), generation),
        decreases rules@.len() - i,
    {
        let rule = rules[i];
        proof {
            assert(catalog().take(i + 1).drop_last() =~= catalog().take(i as int));
            assert(catalog().take(i + 1).last() == rule);
        }
        let layer = match layered {
            Some(document) => rule.id.document == document,
            None => false,
        };
        if rule.id.document == base || layer {
            out.push(rule);
        }
        i = i + 1;
    }
    proof {
        assert(catalog().take(i as int) =~= catalog());
    }
    out
}

/// The first of some rules that raises a deviation.
pub open spec fn raising(rules: Seq<RuleInfo>, kind: DeviationKind) -> Option<RuleInfo>
    decreases rules.len(),
{
    if rules.len() == 0 {
        None
    } else if rules[0].kind == Some(kind) {
        Some(rules[0])
    } else {
        raising(rules.skip(1), kind)
    }
}

/// The rule that a deviation belongs to. Whether its document governs a container is
/// another question, which the container's generation answers.
pub fn rule_for_kind(kind: DeviationKind) -> (r: Option<RuleInfo>)
    ensures
        r == raising(catalog(), kind),
{
    let rules = all_rules();
    let mut i: usize = 0;
    proof {
        assert(catalog().skip(0) =~= catalog());
    }
    while i < rules.len()
        invariant
            i <= rules@.len(),
            rules@ == catalog(),
            raising(catalog(), kind) == raising(catalog().skip(i as int), kind),
        decreases rules@.len() - i,
    {
        let rule = rules[i];
        proof {
            assert(catalog().skip(i as int)[0] == rule);
            assert(catalog().skip(i as int).skip(1) =~= catalog().skip(i + 1));
        }
        let raises = match rule.kind {
            Some(k) => k == kind,
            None => false,
        };
        if raises {
            return Some(rule);
        }
        i = i + 1;
    }
    None
}

/// What holds of every rule. One that is checked binds the container, for only a
/// container can show a departure, and has a deviation to raise. One that refuses
/// the container binds a reader. One that binds a reader or a writer raises no
/// deviation. Nobody is bound exactly where the document leaves the question open.
pub open spec fn consistent(rule: RuleInfo) -> bool {
    &&& rule.state == RuleState::Detected ==> rule.governs == Governs::Container && rule.kind is Some
    &&& rule.state == RuleState::Enforced ==> rule.governs.binds_reader()
    &&& rule.governs.binds_behavior() ==> rule.kind is None
    &&& (rule.governs == Governs::Unsettled) == (rule.state == RuleState::NotCheckable)
}

/// Every rule of the catalog is consistent in itself.
pub proof fn rules_are_consistent(i: int)
    requires
        0 <= i < catalog().len(),
    ensures
        consistent(catalog()[i]),
{
}

/// A rule in scope comes from a document that governs the container, and none that
/// does is left out.
pub proof fn scope_follows_documents(rules: Seq<RuleInfo>, generation: Generation, rule: RuleInfo)
    ensures
        scoped(rules, generation).contains(rule) <==> rules.contains(rule) && in_scope(
            generation,
            rule.id.document,
        ),
    decreases rules.len(),
{
    if rules.len() > 0 {
        let rest = rules.drop_last();
        scope_follows_documents(rest, generation, rule);
        assert(rules =~= rest.push(rules.last()));
        assert(rules.contains(rule) <==> rest.contains(rule) || rule == rules.last()) by {
            if rest.contains(rule) {
                assert(rules[rest.index_of(rule)] == rule);
            }
            if rules.contains(rule) {
                let k = rules.index_of(rule);
                if k < rest.len() {
                    assert(rest[k] == rule);
                }
            }
            if rule == rules.last() {
                assert(rules[rules.len() - 1] == rule);
            }
        }
        let before = scoped(rest, generation);
        let all = before.push(rules.last());
        assert(all.contains(rule) <==> before.contains(rule) || rule == rules.last()) by {
            if before.contains(rule) {
                assert(all[before.index_of(rule)] == rule);
            }
            if all.contains(rule) {
                let k = all.index_of(rule);
                if k < before.len() {
                    assert(before[k] == rule);
                }
            }
            if rule == rules.last() {
                assert(all[before.len() as int] == rule);
            }
        }
    }
}

/// Which rule of the catalog raises a deviation.
spec fn rule_place(kind: DeviationKind) -> int {
    match kind {
        DeviationKind::UntypedNumericLiteral => 2,
        DeviationKind::NonstandardDatatype => 3,
        DeviationKind::UnexpectedDatatype => 4,
        DeviationKind::MapGap => 5,
        DeviationKind::DuplicateSegmentName => 6,
        DeviationKind::ByteRangeArn => 7,
        DeviationKind::NulPaddedComment => 8,
        DeviationKind::InconsistentVolumeArn => 9,
        DeviationKind::UndeclaredObject => 10,
        DeviationKind::DigestLengthMismatch => 11,
        DeviationKind::MissingMapSegmentDigest => 15,
        DeviationKind::ExternalReference => 16,
        DeviationKind::ConflictingStreamValue => 17,
        DeviationKind::MissingZipSegmentType => 18,
        DeviationKind::NonGuidArn => 19,
        DeviationKind::MissingRecordedPath => 20,
        DeviationKind::EscapedV21MemberName => 21,
        DeviationKind::UppercaseGuidArn => 22,
        DeviationKind::WrongTermNamespace => 24,
        DeviationKind::RedundantRawName => 37,
        DeviationKind::MissingRawName => 38,
        DeviationKind::MalformedRawName => 39,
        DeviationKind::ContradictoryRawName => 40,
        DeviationKind::LowercaseNameEscape => 41,
        DeviationKind::UndeclaredStorageForm => 46,
        DeviationKind::AmbiguousStorageForm => 47,
        DeviationKind::DisallowedSegmentCompression => 48,
        DeviationKind::OversizedSegmentStream => 49,
        DeviationKind::MissingSegmentDigest => 50,
        DeviationKind::OversizedMetadataStream => 51,
        DeviationKind::UnconventionalPartName => 57,
        DeviationKind::MissingMetadataHash => 62,
        DeviationKind::WeakMetadataHash => 63,
        DeviationKind::ContentAddressedSubject => 70,
        DeviationKind::DanglingReference => 71,
    }
}

/// A rule that raises a deviation stands where the deviation's rule does.
proof fn rules_stand_in_place(i: int)
    requires
        0 <= i < catalog().len(),
    ensures
        catalog()[i].kind matches Some(kind) ==> rule_place(kind) == i,
{
}

/// The first of some rules that raises a deviation, where only one does.
proof fn raising_finds(rules: Seq<RuleInfo>, kind: DeviationKind, p: int)
    requires
        0 <= p < rules.len(),
        rules[p].kind == Some(kind),
        forall|i: int| 0 <= i < rules.len() && (#[trigger] rules[i]).kind == Some(kind) ==> i == p,
    ensures
        raising(rules, kind) == Some(rules[p]),
    decreases rules.len(),
{
    if p > 0 {
        let rest = rules.skip(1);
        assert(rules[0].kind != Some(kind));
        assert forall|i: int| 0 <= i < rest.len() && (#[trigger] rest[i]).kind == Some(
            kind,
        ) implies i == p - 1 by {
            assert(rest[i] == rules[i + 1]);
        }
        raising_finds(rest, kind, p - 1);
    }
}

/// Every deviation has exactly one rule, so that a report can cite what it departs
/// from.
pub proof fn kinds_have_one_rule(kind: DeviationKind)
    ensures
        exists|p: int|
            0 <= p < catalog().len() && (#[trigger] catalog()[p]).kind == Some(kind) && raising(
                catalog(),
                kind,
            ) == Some(catalog()[p]),
        forall|i: int, j: int|
            0 <= i < catalog().len() && 0 <= j < catalog().len() && (#[trigger] catalog()[i]).kind
                == Some(kind) && (#[trigger] catalog()[j]).kind == Some(kind) ==> i == j,
{
    let p = rule_place(kind);
    assert(catalog()[p].kind == Some(kind));
    assert forall|i: int| 0 <= i < catalog().len() && (#[trigger] catalog()[i]).kind == Some(
        kind,
    ) implies i == p by {
        rules_stand_in_place(i);
    }
    raising_finds(catalog(), kind, p);
}

} // verus!

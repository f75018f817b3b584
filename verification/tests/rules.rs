use aff4tools::error::DeviationKind;
use aff4tools::lexicon::Generation;
use aff4tools::rules::{
    all_rules, declare_rule, render_catalog, rule_for_kind, rules_for_generation, Coverage,
    Document, Governs, Requirement, RuleId, RuleInfo, RuleState,
};

#[test]
fn documents_name_themselves_exactly() {
    assert_eq!(Document::Aff4Standard10a.name(), "AFF4 Specification 1.0a");
    assert_eq!(
        Document::Aff4LPaper2019.name(),
        "AFF4-L (Schatz, DFRWS USA 2019, Digital Investigation 29, S143-S149)"
    );
    assert_eq!(
        Document::Aff4LStandard10Alpha.name(),
        "AFF4-L Standard v1.0-ALPHA"
    );
    assert_eq!(
        Document::Aff4LStandard10Alpha.to_string(),
        "AFF4-L Standard v1.0-ALPHA"
    );
}

#[test]
fn short_names_are_identifier_safe() {
    for document in Document::ALL {
        let short = document.short_name();
        assert!(!short.is_empty(), "{document:?}");
        assert!(
            short
                .chars()
                .all(|c| c.is_ascii_uppercase() || c.is_ascii_digit() || c == '_'),
            "{document:?} short name {short} must be usable in a rule ID"
        );
    }
}

#[test]
fn rule_ids_render_as_the_documented_triple() {
    let id = RuleId::new(Document::Aff4LStandard10Alpha, "§6.1", 3);
    assert_eq!(id.to_string(), "AFF4L_V1_ALPHA/6.1/3");
}

#[test]
fn rule_ids_strip_the_section_sign() {
    let id = RuleId::new(Document::Aff4Standard10a, "§5.4", 1);
    assert_eq!(id.clause, "§5.4", "the stored clause keeps its sign");
    assert_eq!(id.clause_number(), "5.4");
    assert_eq!(id.to_string(), "AFF4_V1_0A/5.4/1");
    assert!(!id.to_string().contains('§'), "{id:?}");
}

#[test]
fn the_unlegislated_sentinel_is_left_alone() {
    let id = RuleId::new(Document::Aff4Standard10a, "none", 1);
    assert_eq!(id.clause_number(), "none");
    assert_eq!(id.to_string(), "AFF4_V1_0A/none/1");
}

#[test]
fn rule_states_are_distinct() {
    assert_eq!(RuleState::Enforced.as_str(), "enforced");
    assert_eq!(RuleState::Detected.as_str(), "detected");
    assert_eq!(RuleState::Honored.as_str(), "honored");
    assert_eq!(RuleState::NotImplemented.as_str(), "not implemented");
    assert_eq!(RuleState::NotCheckable.as_str(), "not checkable");
}

#[test]
fn governs_renders_each_actor() {
    assert_eq!(Governs::Container.as_str(), "container");
    assert_eq!(Governs::Reader.as_str(), "reader");
    assert_eq!(Governs::Writer.as_str(), "writer");
    assert_eq!(Governs::ReaderWriter.as_str(), "reader, writer");
    assert_eq!(Governs::Unsettled.as_str(), "-");
}

#[test]
fn requirement_levels_render_in_spec_case() {
    assert_eq!(Requirement::Must.as_str(), "MUST");
    assert_eq!(Requirement::Should.as_str(), "SHOULD");
    assert_eq!(Requirement::May.as_str(), "MAY");
    assert_eq!(Requirement::MustNot.as_str(), "MUST NOT");
    assert_eq!(Requirement::ShouldNot.as_str(), "SHOULD NOT");
}

#[test]
fn a_declared_rule_carries_all_its_metadata() {
    let sample: RuleInfo = declare_rule(
        Document::Aff4Standard10a,
        "§5.4",
        1,
        Requirement::Must,
        RuleState::Detected,
        Governs::Container,
        "The ZIP comment carries the volume ARN starting at offset 0.",
        Some(DeviationKind::NulPaddedComment),
        true,
    );
    assert_eq!(sample.id.to_string(), "AFF4_V1_0A/5.4/1");
    assert_eq!(sample.requirement, Requirement::Must);
    assert_eq!(sample.state, RuleState::Detected);
    assert_eq!(sample.governs, Governs::Container);
    assert!(sample.statement.ends_with('.'), "statements are sentences");
    assert!(sample.routine);
}

#[test]
fn every_deviation_kind_has_exactly_one_rule() {
    let all_kinds = [
        DeviationKind::UntypedNumericLiteral,
        DeviationKind::NonstandardDatatype,
        DeviationKind::UnexpectedDatatype,
        DeviationKind::DigestLengthMismatch,
        DeviationKind::NulPaddedComment,
        DeviationKind::InconsistentVolumeArn,
        DeviationKind::ByteRangeArn,
        DeviationKind::ContentAddressedSubject,
        DeviationKind::MapGap,
        DeviationKind::DuplicateSegmentName,
        DeviationKind::MissingZipSegmentType,
        DeviationKind::MissingMapSegmentDigest,
        DeviationKind::ExternalReference,
        DeviationKind::ConflictingStreamValue,
        DeviationKind::DanglingReference,
    ];

    for kind in all_kinds {
        let rules = all_rules();
        let matches: Vec<&RuleInfo> = rules
            .iter()
            .filter(|rule| rule.kind == Some(kind))
            .collect();
        assert_eq!(
            matches.len(),
            1,
            "{kind:?} must have exactly one rule, found {}",
            matches.len()
        );
        assert_eq!(rule_for_kind(kind), Some(*matches[0]));
    }
}

#[test]
fn detected_rules_govern_the_container() {
    for rule in all_rules() {
        if rule.state == RuleState::Detected {
            assert_eq!(
                rule.governs,
                Governs::Container,
                "{} is Detected but does not govern the container",
                rule.id.to_string()
            );
        }
    }
}

#[test]
fn enforced_rules_govern_a_reader() {
    let mut enforced = 0;
    for rule in all_rules() {
        if rule.state == RuleState::Enforced {
            enforced += 1;
            assert!(
                rule.governs.includes_reader(),
                "{} is Enforced but does not govern a reader",
                rule.id.to_string()
            );
        }
    }
    assert_eq!(enforced, 1);
}

#[test]
fn behavioral_rules_raise_no_deviation() {
    for rule in all_rules() {
        if rule.governs.is_behavioral() {
            assert!(
                rule.kind.is_none(),
                "{} governs a reader or writer but names a deviation kind",
                rule.id.to_string()
            );
        }
    }
}

#[test]
fn only_not_checkable_rules_are_unsettled() {
    for rule in all_rules() {
        let unsettled = rule.governs == Governs::Unsettled;
        let not_checkable = rule.state == RuleState::NotCheckable;
        assert_eq!(
            unsettled,
            not_checkable,
            "{} pairs governs={:?} with state={:?}; `-` is for not-checkable rules alone",
            rule.id.to_string(),
            rule.governs,
            rule.state
        );
    }
}

fn part_key(part: &str) -> (u32, String) {
    let split = part
        .find(|c: char| !c.is_ascii_digit())
        .unwrap_or(part.len());
    let (digits, suffix) = part.split_at(split);
    (digits.parse::<u32>().unwrap_or(0), suffix.to_owned())
}

fn reading_key(rule: &RuleInfo) -> (Vec<(u32, String)>, u16) {
    let parts = rule.id.clause_number().split('.').map(part_key).collect();
    (parts, rule.id.ordinal)
}

#[test]
fn rules_are_declared_in_reading_order() {
    for document in Document::ALL {
        let keys: Vec<(Vec<(u32, String)>, u16)> = all_rules()
            .iter()
            .filter(|r| r.id.document == document && r.id.clause != "none")
            .map(reading_key)
            .collect();
        for window in keys.windows(2) {
            assert!(
                window[0] <= window[1],
                "{document:?} rules are out of reading order: {:?} precedes {:?}",
                window[0],
                window[1]
            );
        }
    }
}

#[test]
fn rule_ids_are_unique() {
    let mut seen = std::collections::HashSet::new();
    for rule in all_rules() {
        assert!(
            seen.insert(rule.id.to_string()),
            "duplicate rule ID {}",
            rule.id.to_string()
        );
    }
}

#[test]
fn detected_rules_have_a_deviation_kind() {
    for rule in all_rules() {
        if rule.state == RuleState::Detected {
            assert!(
                rule.kind.is_some(),
                "{} is Detected but raises no deviation",
                rule.id.to_string()
            );
        }
    }
}

#[test]
fn statements_are_sentences() {
    for rule in all_rules() {
        assert!(
            rule.statement.ends_with('.'),
            "{} statement must end with a period",
            rule.id.to_string()
        );
        assert!(
            rule.statement.len() > 20,
            "{} statement is too short to be useful",
            rule.id.to_string()
        );
    }
}

#[test]
fn the_alpha_standard_is_fully_declared() {
    let rules = all_rules();
    let alpha: Vec<&RuleInfo> = rules
        .iter()
        .filter(|rule| rule.id.document == Document::Aff4LStandard10Alpha)
        .collect();
    assert_eq!(
        alpha.len(),
        51,
        "every normative statement in the standard needs a declaration; {} are declared",
        alpha.len()
    );
}

#[test]
fn a_detected_rule_carries_the_deviation_it_raises() {
    for rule in all_rules() {
        if rule.state == RuleState::Detected {
            assert!(
                rule.kind.is_some(),
                "{} claims a checker but names no deviation for it to raise",
                rule.id.to_string()
            );
        }
    }
}

#[test]
fn the_checked_rules_of_the_alpha_standard_are_these() {
    let detected: Vec<String> = all_rules()
        .iter()
        .filter(|rule| {
            rule.id.document == Document::Aff4LStandard10Alpha && rule.state == RuleState::Detected
        })
        .map(|rule| rule.id.to_string())
        .collect();
    assert_eq!(
        detected,
        [
            "AFF4L_V1_ALPHA/1.1/1",
            "AFF4L_V1_ALPHA/1.1/2",
            "AFF4L_V1_ALPHA/1.2/1",
            "AFF4L_V1_ALPHA/2/1",
            "AFF4L_V1_ALPHA/4.1/1",
            "AFF4L_V1_ALPHA/5/1",
            "AFF4L_V1_ALPHA/5/2",
            "AFF4L_V1_ALPHA/5/3",
            "AFF4L_V1_ALPHA/5/4",
            "AFF4L_V1_ALPHA/5/5",
            "AFF4L_V1_ALPHA/6/3",
            "AFF4L_V1_ALPHA/6/4",
            "AFF4L_V1_ALPHA/6.1/1",
            "AFF4L_V1_ALPHA/6.1/2",
            "AFF4L_V1_ALPHA/6.1/3",
            "AFF4L_V1_ALPHA/6.2/1",
            "AFF4L_V1_ALPHA/8/1",
            "AFF4L_V1_ALPHA/10.1/1",
            "AFF4L_V1_ALPHA/10.1/2",
        ]
    );
}

#[test]
fn rules_in_scope_follow_the_governing_documents() {
    let standard = rules_for_generation(Generation::Standard10);
    assert!(!standard.is_empty());
    assert!(
        standard
            .iter()
            .all(|r| r.id.document == Document::Aff4Standard10a),
        "a v1.0 container is governed by v1.0a alone"
    );

    let logical = rules_for_generation(Generation::PyAff4Logical);
    assert!(
        logical
            .iter()
            .any(|r| r.id.document == Document::Aff4LPaper2019),
        "a v1.1 container is also governed by the 2019 paper"
    );
    assert!(
        !logical
            .iter()
            .any(|r| r.id.document == Document::Aff4LStandard10Alpha),
        "the new standard does not govern a pyaff4-era container"
    );

    let alpha = rules_for_generation(Generation::Aff4L10);
    assert!(
        alpha
            .iter()
            .any(|r| r.id.document == Document::Aff4LStandard10Alpha),
        "a v2.1 container is governed by the new standard"
    );
    assert!(
        alpha
            .iter()
            .any(|r| r.id.document == Document::Aff4Standard10a),
        "v2.1 is base-plus-delta: v1.0a still governs the container layer"
    );
}

#[test]
fn a_v1_0_container_has_almost_full_coverage() {
    let coverage = Coverage::for_generation(Generation::Standard10);
    assert_eq!(coverage.unevaluated().len(), 5);
    assert!(
        !coverage.is_complete(),
        "some v1.0a rules are declared but not yet emitted"
    );
    assert!(
        coverage.has_unevaluated_must(),
        "the AFF4 Standard v1.0a §6.2 map digest requirements are binding and \
         not yet checked; reporting them is the point of declaring them"
    );
}

#[test]
fn two_of_the_unevaluated_base_rules_bind() {
    let coverage = Coverage::for_generation(Generation::Standard10);
    let binding: Vec<String> = coverage
        .unevaluated()
        .iter()
        .filter(|rule| rule.requirement.is_binding())
        .map(|rule| rule.id.to_string())
        .collect();
    assert_eq!(binding, ["AFF4_V1_0A/6.2/1", "AFF4_V1_0A/6.2/2"]);
    assert_eq!(coverage.generation(), Generation::Standard10);
}

#[test]
fn a_v2_1_container_is_largely_unevaluated() {
    let coverage = Coverage::for_generation(Generation::Aff4L10);
    assert!(coverage.unevaluated().len() >= 20);
    assert!(
        coverage.has_unevaluated_must(),
        "unevaluated MUST requirements cause --strict to fail on a v2.1 container"
    );
}

#[test]
fn only_binding_rules_drive_the_exit_code() {
    let coverage = Coverage::for_generation(Generation::Standard10);
    let binding_present = coverage
        .unevaluated()
        .iter()
        .any(|rule| matches!(rule.requirement, Requirement::Must | Requirement::MustNot));
    assert_eq!(
        coverage.has_unevaluated_must(),
        binding_present,
        "the exit code must follow the binding rules and only those"
    );

    let advisory_only = Coverage::for_generation(Generation::Standard10)
        .unevaluated()
        .iter()
        .filter(|rule| matches!(rule.requirement, Requirement::Should | Requirement::May))
        .count();
    assert!(
        advisory_only > 0,
        "the v1.0 catalog still carries unevaluated recommendations"
    );
}

#[test]
fn a_prohibition_counts_as_binding() {
    let binding = |r: Requirement| matches!(r, Requirement::Must | Requirement::MustNot);
    assert!(binding(Requirement::MustNot), "a prohibition binds");
    assert!(binding(Requirement::Must));
    assert!(!binding(Requirement::Should));
    assert!(!binding(Requirement::May));
    assert!(Requirement::MustNot.is_binding());
    assert!(Requirement::Must.is_binding());
    assert!(!Requirement::Should.is_binding());
    assert!(!Requirement::ShouldNot.is_binding());
    assert!(!Requirement::May.is_binding());

    let real = Coverage::for_generation(Generation::Aff4L10);
    assert!(real
        .unevaluated()
        .iter()
        .all(|rule| rule.state != RuleState::Detected));
}

#[test]
fn a_layered_scope_is_never_narrower_than_its_base() {
    let base = Coverage::for_generation(Generation::Standard10)
        .unevaluated()
        .len();
    for layered in [Generation::PyAff4Logical, Generation::Aff4L10] {
        assert!(
            Coverage::for_generation(layered).unevaluated().len() >= base,
            "{layered:?} layers a document over v1.0a, so it cannot evaluate more"
        );
    }
}

#[test]
fn what_is_enforced_is_no_gap() {
    let coverage = Coverage::for_generation(Generation::Standard10);
    assert!(coverage
        .unevaluated()
        .iter()
        .all(|rule| rule.state != RuleState::Enforced && rule.state != RuleState::Honored));
}

#[test]
fn the_catalog_renders_a_row_for_every_rule() {
    let text = render_catalog();
    assert!(text.starts_with("# Conformance rules\n\n"));
    assert!(text.contains("## AFF4 Specification 1.0a\n\n| Rule | Level | State | Requirement |\n|---|---|---|---|\n"));
    assert!(text.contains(
        "| `AFF4_V1_0A/5.4/1` (§5.4) | MUST | detected | The ZIP comment carries the volume ARN \
         starting at offset 0, with nothing appended. |\n"
    ));
    assert!(text.contains(
        "| `AFF4_V1_0A/none/2` (not legislated) | MAY | detected | A reference to an undescribed \
         ARN with no aff4:stored pointer cannot be resolved or attributed. |\n"
    ));
    let rows = text.lines().filter(|l| l.starts_with("| `")).count();
    assert_eq!(rows, all_rules().len());
    let detected = all_rules()
        .iter()
        .filter(|rule| rule.state == RuleState::Detected)
        .count();
    assert!(text.ends_with(&format!(
        "## Coverage\n\n{} of {} declared rules are checked.\n",
        detected,
        all_rules().len()
    )));
}

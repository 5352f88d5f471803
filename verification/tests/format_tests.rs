use crow::client::{Test, TestDetail};
use crow::formats::{
    associate_to_headings, details_from_markdown, extract_heading, extract_value, from_blocks, from_markdown, modifier_from_string, parse_crash_signal,
    parse_fail_reason, require_value, to_blocks, to_markdown, FormatError, Keys, MdBlock,
};
use crow::modifiers::{CompilerFailReason, CrashSignal, TestModifier};

fn sample_test() -> (Test, TestDetail) {
    let test = Test {
        id: "nested-loops".to_string(),
        creator_id: "team-a".to_string(),
        admin_authored: false,
        limited_to_category: true,
        category: "lab1".to_string(),
        hash: "abc123".to_string(),
    };
    let detail = TestDetail {
        compiler_modifiers: vec![TestModifier::ShouldSucceed],
        binary_modifiers: vec![
            TestModifier::ProgramInput { input: "1 2 3\n".to_string() },
            TestModifier::ExpectedOutput { output: "6\n".to_string() },
            TestModifier::ExitCode { code: 3 },
            TestModifier::ShouldCrash { signal: CrashSignal::SegmentationFault },
        ],
    };
    (test, detail)
}

fn same_modifiers(a: &[TestModifier], b: &[TestModifier]) -> bool {
    format!("{:?}", a) == format!("{:?}", b)
}

#[test]
fn markdown_round_trip_keeps_test() {
    let (test, detail) = sample_test();
    let text = to_markdown(&test, &detail);
    let (back, back_detail) = from_markdown(&text, "lab1".to_string(), "nested-loops".to_string()).unwrap();
    assert_eq!(back.id, test.id);
    assert_eq!(back.creator_id, test.creator_id);
    assert_eq!(back.admin_authored, test.admin_authored);
    assert_eq!(back.limited_to_category, test.limited_to_category);
    assert_eq!(back.category, test.category);
    assert_eq!(back.hash, test.hash);
    assert!(same_modifiers(&back_detail.compiler_modifiers, &detail.compiler_modifiers));
    assert!(same_modifiers(&back_detail.binary_modifiers, &detail.binary_modifiers));
}

#[test]
fn markdown_has_the_section_headings() {
    let (test, detail) = sample_test();
    let text = to_markdown(&test, &detail);
    assert!(text.contains("# Executing your compiler"));
    assert!(text.contains("# Executing the compiled binary"));
    assert!(text.contains("# Meta"));
    assert!(text.contains("## Hash"));
    assert!(text.contains("abc123"));
}

#[test]
fn block_round_trip_keeps_test() {
    let (test, detail) = sample_test();
    let blocks = to_blocks(&test, &detail);
    let (back, back_detail) = from_blocks(&blocks, "lab1".to_string(), "nested-loops".to_string()).unwrap();
    assert_eq!(back.hash, "abc123");
    assert_eq!(back.creator_id, "team-a");
    assert!(back.limited_to_category);
    assert!(!back.admin_authored);
    assert!(same_modifiers(&back_detail.binary_modifiers, &detail.binary_modifiers));
}

#[test]
fn details_only_need_the_modifier_sections() {
    let text = "# Executing your compiler\n\n## ShouldFail\n\n```\nParsing\n```\n\n# Executing the compiled binary\n";
    let detail = details_from_markdown(text).unwrap();
    assert!(same_modifiers(
        &detail.compiler_modifiers,
        &[TestModifier::ShouldFail { reason: CompilerFailReason::Parsing }]
    ));
    assert!(detail.binary_modifiers.is_empty());
}

#[test]
fn missing_section_is_reported() {
    let text = "# Executing your compiler\n\n## ShouldSucceed\n";
    match details_from_markdown(text) {
        Err(FormatError::MissingSection { section }) => assert_eq!(section, "Executing the compiled binary"),
        other => panic!("unexpected {:?}", other.map(|_| ())),
    }
}

#[test]
fn duplicate_heading_is_reported() {
    let blocks = vec![
        MdBlock::Heading { depth: 1, text: "Meta".to_string() },
        MdBlock::Heading { depth: 1, text: "Meta".to_string() },
    ];
    match from_blocks(&blocks, "lab1".to_string(), "x".to_string()) {
        Err(FormatError::DuplicateHeading { heading }) => assert_eq!(heading, "Meta"),
        other => panic!("unexpected {:?}", other.map(|_| ())),
    }
}

#[test]
fn crash_signals_parse() {
    assert!(matches!(parse_crash_signal("SegmentationFault"), Ok(CrashSignal::SegmentationFault)));
    assert!(matches!(parse_crash_signal("Abort"), Ok(CrashSignal::Abort)));
    assert!(matches!(parse_crash_signal("FloatingPointException"), Ok(CrashSignal::FloatingPointException)));
    assert!(matches!(parse_crash_signal("Boom"), Err(FormatError::MalformedModifier { .. })));
}

#[test]
fn fail_reasons_parse() {
    assert!(matches!(parse_fail_reason("Parsing"), Ok(CompilerFailReason::Parsing)));
    assert!(matches!(parse_fail_reason("SemanticAnalysis"), Ok(CompilerFailReason::SemanticAnalysis)));
    assert!(matches!(parse_fail_reason("Typing"), Err(FormatError::MalformedModifier { .. })));
}

#[test]
fn modifiers_parse_from_name_and_value() {
    assert!(matches!(modifier_from_string("ExitCode", Some("42".to_string())), Ok(TestModifier::ExitCode { code: 42 })));
    assert!(matches!(modifier_from_string("ShouldTimeout", None), Ok(TestModifier::ShouldTimeout)));
    assert!(modifier_from_string("ExitCode", Some("256".to_string())).is_err());
    assert!(modifier_from_string("ExitCode", None).is_err());
    assert!(modifier_from_string("Unknown", None).is_err());
}

#[test]
fn required_values_must_be_present() {
    assert_eq!(require_value("ExitCode", Some("1".to_string())).unwrap(), "1");
    assert!(matches!(require_value("ExitCode", None), Err(FormatError::MalformedModifier { .. })));
}

#[test]
fn missing_meta_value_is_reported() {
    let values: Vec<(String, Option<String>)> = vec![("Creator".to_string(), Some("t".to_string()))];
    let mut values: indexmap::IndexMap<String, Option<String>> = values.into_iter().collect();
    assert_eq!(extract_value(Keys::Creator, &mut values).unwrap(), "t");
    assert!(matches!(extract_value(Keys::Creator, &mut values), Err(FormatError::MissingValue { .. })));
    match extract_value(Keys::Hash, &mut values) {
        Err(FormatError::MissingValue { key }) => assert_eq!(key, "Hash"),
        other => panic!("unexpected {:?}", other),
    }
}

#[test]
fn later_meta_values_win_and_sections_keep_their_order() {
    let h = |d: u8, t: &str| MdBlock::Heading { depth: d, text: t.to_string() };
    let c = |v: &str| MdBlock::Code { value: v.to_string() };
    let blocks = vec![
        h(1, "Executing your compiler"),
        h(1, "Meta"),
        h(2, "Hash"),
        c("first"),
        h(2, "Creator"),
        c("me"),
        h(2, "Admin Authored"),
        c("false"),
        h(2, "Hash"),
        c("second"),
        h(1, "Executing the compiled binary"),
        h(2, "ShouldSucceed"),
    ];
    let (test, detail) = from_blocks(&blocks, "lab".to_string(), "t".to_string()).unwrap();
    assert_eq!(test.hash, "second");
    assert_eq!(test.creator_id, "me");
    assert!(!test.limited_to_category);
    assert!(detail.compiler_modifiers.is_empty());
    assert_eq!(detail.binary_modifiers.len(), 1);
    assert!(matches!(detail.binary_modifiers[0], TestModifier::ShouldSucceed));
    let mut sections = associate_to_headings(&blocks).unwrap();
    let keys: Vec<&String> = sections.keys().collect();
    assert_eq!(keys, vec!["Executing your compiler", "Meta", "Executing the compiled binary"]);
    assert_eq!(extract_heading(Keys::Meta, &mut sections).unwrap().len(), 8);
    assert!(matches!(extract_heading(Keys::Meta, &mut sections), Err(FormatError::MissingSection { .. })));
    assert_eq!(sections.len(), 2);
}

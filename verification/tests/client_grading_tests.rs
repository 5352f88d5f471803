use crow::catalog::Test as StoredTest;
use crow::client::{
    category_open, diff_line_tone, diff_lines, get_locally_inconsistent_tests, get_remote_changed_tests,
    get_remote_only_tests, infer_test_metadata_from_path, separator_padding, should_print_test, st, test_hash,
    updatable_tests, DiffTone, FullTest, RunCounts, RunOutcome, Test, TestCategory, TestDetail,
};
use crow::execution::{ExecutionExitStatus, FinishedTestSummary};
use crow::grading::{
    category_infos, classify_test, formula_to_string, grading_variable_names, slugify, FormulaOp, FormulaTree,
    TeamStatistics, TestClass,
};
use crow::ids::{TeamId, TestId};
use crow::modifiers::{CompilerFailReason, CrashSignal, TestModifier};

fn remote(id: &str, category: &str, hash: &str) -> Test {
    Test {
        id: id.to_string(),
        creator_id: "team-a".to_string(),
        admin_authored: false,
        limited_to_category: false,
        category: category.to_string(),
        hash: hash.to_string(),
    }
}

fn local(id: &str, category: &str, hash: &str) -> FullTest {
    FullTest {
        test: remote(id, category, hash),
        detail: TestDetail { compiler_modifiers: vec![], binary_modifiers: vec![] },
    }
}

#[test]
fn sync_finds_new_and_changed_tests() {
    let remote_tests = vec![remote("a", "lab1", "h1"), remote("b", "lab1", "h2"), remote("c", "lab2", "h3")];
    let local_tests = vec![local("a", "lab1", "h1"), local("b", "lab1", "old")];
    let only: Vec<String> = get_remote_only_tests(&remote_tests, &local_tests).iter().map(|t| t.id.clone()).collect();
    assert_eq!(only, vec!["c"]);
    let changed: Vec<String> =
        get_remote_changed_tests(&remote_tests, &local_tests).iter().map(|t| t.id.clone()).collect();
    assert_eq!(changed, vec!["b"]);
}

#[test]
fn hash_is_sha256_of_the_contents() {
    let t = remote("a", "lab1", "");
    let h = test_hash(&t, "[]", "[]");
    // sha256 of "[]" "[]" "team-a" 0x00 0x00 "lab1"
    assert_eq!(h.len(), 64);
    assert!(h.chars().all(|c| c.is_ascii_hexdigit() && !c.is_ascii_uppercase()));
    assert_ne!(h, test_hash(&t, "[]", "[\"ShouldSucceed\"]"));
    let mut consistent = local("a", "lab1", "");
    consistent.test.hash = h.clone();
    let broken = local("b", "lab1", "nope");
    let serialized = vec![("[]".to_string(), "[]".to_string()), ("[]".to_string(), "[]".to_string())];
    assert_eq!(get_locally_inconsistent_tests(&vec![consistent, broken], &serialized), vec![1]);
}

#[test]
fn sha256_of_empty_input() {
    let t = Test {
        id: String::new(),
        creator_id: String::new(),
        admin_authored: false,
        limited_to_category: false,
        category: String::new(),
        hash: String::new(),
    };
    // two zero bytes for the flags
    assert_eq!(test_hash(&t, "", ""), "96a296d224f285c67bee93c30f8a309157f0daa35dc5b87e410b78630a09cfc7");
}

#[test]
fn metadata_comes_from_the_path() {
    assert_eq!(
        infer_test_metadata_from_path("/tests/lab1/loops.crow-test.md"),
        Ok(("lab1".to_string(), "loops".to_string()))
    );
    assert!(infer_test_metadata_from_path("/tests/lab1/loops.md").is_err());
}

#[test]
fn diff_lines_are_toned() {
    assert_eq!(diff_line_tone("-a"), DiffTone::Removed);
    assert_eq!(diff_line_tone("+a"), DiffTone::Added);
    assert_eq!(diff_line_tone("@@ -1 +1 @@"), DiffTone::Hunk);
    assert_eq!(diff_line_tone(" a"), DiffTone::Context);
    assert_eq!(diff_line_tone(""), DiffTone::Context);
    let lines = diff_lines("-a\n+b\n c");
    assert_eq!(lines.len(), 3);
    assert_eq!(lines[1], (DiffTone::Added, "+b".to_string()));
}

#[test]
fn run_counts_and_printing() {
    let mut counts = RunCounts::new();
    counts.record(RunOutcome::Passed);
    counts.record(RunOutcome::Failed);
    assert_eq!(counts.completed(), 2);
    assert!(!counts.all_passed());
    assert!(should_print_test(false, RunOutcome::Passed));
    assert!(!should_print_test(true, RunOutcome::Passed));
    assert!(should_print_test(true, RunOutcome::Failed));
    let (left, right) = separator_padding(10);
    assert!(left + right + 10 <= 80);
    assert_eq!(st("a").append("b").as_string(), "ab");
}

#[test]
fn categories_open_between_start_and_labs_end() {
    let c = TestCategory { starts_at: 10, labs_end_at: 20, tests_end_at: 15 };
    assert!(category_open(&c, 15));
    assert!(!category_open(&c, 10));
    assert!(!category_open(&c, 20));
}

#[test]
fn own_tests_can_be_updated() {
    let tests = vec![remote("a", "lab1", "h"), remote("b", "lab2", "h")];
    assert_eq!(updatable_tests(&tests, "lab1", "team-a"), vec!["a".to_string()]);
    assert!(updatable_tests(&tests, "lab1", "team-b").is_empty());
}

#[test]
fn slugs_of_category_names() {
    assert_eq!(slugify("Lab 1: Parsing!"), "lab_1__parsing");
    assert_eq!(slugify("__x__"), "x");
    let (passed, total) = grading_variable_names("Lab 2");
    assert_eq!(passed, "passed_lab_2");
    assert_eq!(total, "total_lab_2");
}

fn summary(category: Option<&str>, provisional: Option<&str>, output: ExecutionExitStatus) -> FinishedTestSummary {
    FinishedTestSummary {
        test_id: TestId("t".to_string()),
        output,
        provisional_for_category: provisional.map(|s| s.to_string()),
        category: category.map(|s| s.to_string()),
    }
}

#[test]
fn category_infos_count_graded_tests() {
    let tests = vec![
        summary(Some("lab1"), None, ExecutionExitStatus::Success),
        summary(Some("lab1"), None, ExecutionExitStatus::Failure),
        summary(Some("lab1"), Some("lab1"), ExecutionExitStatus::Success),
        summary(Some("lab2"), Some("lab3"), ExecutionExitStatus::Success),
        summary(None, None, ExecutionExitStatus::Success),
    ];
    let infos = category_infos(&tests);
    assert_eq!(infos.len(), 2);
    assert_eq!(infos[0].0, "lab1");
    assert_eq!((infos[0].1.passed_tests, infos[0].1.total_tests), (1, 2));
    assert_eq!(infos[1].0, "lab2");
    assert_eq!((infos[1].1.passed_tests, infos[1].1.total_tests), (1, 1));
}

fn stored(id: &str, category: &str, compiler: Vec<TestModifier>, binary: Vec<TestModifier>) -> StoredTest {
    StoredTest {
        id: TestId(id.to_string()),
        compiler_modifiers: compiler,
        binary_modifiers: binary,
        owner: TeamId("a".to_string()),
        admin_authored: false,
        category: category.to_string(),
        provisional_for_category: None,
        limited_to_category: false,
        last_updated: 0,
    }
}

#[test]
fn tests_are_classified_by_expectation() {
    let crash = stored("c", "lab1", vec![], vec![TestModifier::ShouldCrash { signal: CrashSignal::Abort }]);
    let fail = stored("f", "lab1", vec![TestModifier::ShouldFail { reason: CompilerFailReason::Parsing }], vec![]);
    let exit = stored("e", "lab1", vec![], vec![TestModifier::ExitCode { code: 1 }]);
    let hang = stored("h", "lab1", vec![], vec![TestModifier::ShouldTimeout]);
    let compiles = stored("s", "lab1", vec![TestModifier::ShouldSucceed], vec![]);
    let other = stored("o", "lab2", vec![], vec![TestModifier::ProgramInput { input: String::new() }]);
    assert_eq!(classify_test(&crash), TestClass::RuntimeError);
    assert_eq!(classify_test(&fail), TestClass::CompileError);
    assert_eq!(classify_test(&exit), TestClass::ExitCode);
    assert_eq!(classify_test(&hang), TestClass::NonTermination);
    assert_eq!(classify_test(&compiles), TestClass::CompilerSucceedNoExec);
    assert_eq!(classify_test(&other), TestClass::Unclassified);
    let mut stats = TeamStatistics::new(TeamId("a".to_string()));
    for t in [&crash, &fail, &exit, &hang, &compiles, &other] {
        stats.absorb(t);
    }
    assert_eq!(stats.tests_per_category.len(), 2);
    let lab1 = &stats.tests_per_category[0].1;
    assert_eq!(
        (lab1.runtime_error, lab1.compile_errors, lab1.exit_code, lab1.non_termination, lab1.compiler_succeed_no_exec),
        (1, 1, 1, 1, 1)
    );
    assert_eq!(stats.tests_per_category[1].1.unclassified.len(), 1);
}

fn node(op: FormulaOp, display: &str, children: Vec<FormulaTree>) -> FormulaTree {
    FormulaTree { op, display: display.to_string(), children }
}

#[test]
fn formulas_are_written_with_parentheses() {
    let sum = node(
        FormulaOp::Infix,
        "+",
        vec![node(FormulaOp::VariableIdentifierRead, "passed_lab_1", vec![]), node(FormulaOp::Const, "2", vec![])],
    );
    let root = node(FormulaOp::RootNode, "", vec![sum]);
    assert_eq!(formula_to_string(&root), "(passed_lab_1 + 2)");
    let power = node(FormulaOp::Exp, "^", vec![node(FormulaOp::Const, "2", vec![]), node(FormulaOp::Const, "3", vec![])]);
    assert_eq!(formula_to_string(&power), "(2^3)");
}

#[test]
fn test_files_live_under_their_category() {
    let t = remote("loops", "lab1", "h");
    assert_eq!(t.path("/tests"), "/tests/lab1/loops.crow-test.md");
    assert_eq!(t.local_file_paths("/tests/"), vec!["/tests/lab1/loops.crow-test.md".to_string()]);
    assert_eq!(crow::client::test_file_name("x"), "x.crow-test.md");
}

#[test]
fn upload_names_are_inferred_when_asked() {
    let mut args = crow::client::CliUploadTestArgs {
        test: "t.crow-test.md".to_string(),
        name: Some("given".to_string()),
        category: None,
        taste_test: None,
        infer_metadata_from_input: None,
    };
    assert_eq!(
        crow::client::upload_names(&args, "/x/lab2/t.crow-test.md"),
        Ok((None, Some("given".to_string())))
    );
    args.infer_metadata_from_input = Some(true);
    assert_eq!(
        crow::client::upload_names(&args, "/x/lab2/t.crow-test.md"),
        Ok((Some("lab2".to_string()), Some("t".to_string())))
    );
    assert!(crow::client::upload_names(&args, "/x/lab2/t.txt").is_err());
}

#[test]
fn slug_of_a_slug_is_itself() {
    for name in ["Lab 1: Parsing!", "__x__", "Code-Gen_2", "  ", "ÄÖÜ tests", "a--b__c"] {
        let once = slugify(name);
        assert_eq!(slugify(&once), once);
        assert!(!once.starts_with('_') && !once.ends_with('_'));
        assert!(once.chars().all(|c| c.is_alphanumeric() || c == '-' || c == '_'));
    }
    assert_eq!(slugify("Code-Gen_2"), "code-gen_2");
    assert_eq!(slugify("  "), "");
}

//! The backend's tests.
use vstd::prelude::*;
use crate::client::{sha256_digest_hex, sha256_hex};
use crate::config::{TestCategory, TestConfig};
use crate::execution::{is_test_success, TestExecutionOutput, TestTastingResult};
use crate::ids::{TeamId, TestId};
use crate::modifiers::TestModifier;
use crate::text::same_text;
use crate::users::WebError;

verus! {

/// A test as the backend stores it.
#[derive(Debug, Clone)]
pub struct Test {
    pub id: TestId,
    pub compiler_modifiers: Vec<TestModifier>,
    pub binary_modifiers: Vec<TestModifier>,
    pub owner: TeamId,
    pub admin_authored: bool,
    pub category: String,
    pub provisional_for_category: Option<String>,
    /// This test is not applicable to later categories and should not be run.
    pub limited_to_category: bool,
    /// When the test last changed, in milliseconds since the epoch.
    pub last_updated: i64,
}

/// A test with the result of tasting it against the reference compiler, if it was tasted.
#[derive(Debug, Clone)]
pub struct TestWithTasteTesting {
    pub test: Test,
    pub test_tasting_result: Option<TestTastingResult>,
}

/// A test as the test list shows it.
#[derive(Debug, Clone)]
pub struct TestSummary {
    pub id: TestId,
    pub creator_id: TeamId,
    pub creator_name: String,
    pub admin_authored: bool,
    pub category: String,
    pub hash: String,
    pub test_taste_success: Option<bool>,
    pub provisional_for_category: Option<String>,
    pub limited_to_category: bool,
    /// When the test last changed, in milliseconds since the epoch.
    pub last_updated: i64,
}

/// The bytes that a stored test's hash covers: the serialized compiler and binary modifiers,
/// the owner, whether an admin wrote it (one byte), and the category.
pub open spec fn stored_hash_input(t: Test, compiler_json: Seq<char>, binary_json: Seq<char>) -> Seq<u8> {
    vstd::utf8::encode_utf8(compiler_json) + vstd::utf8::encode_utf8(binary_json) + vstd::utf8::encode_utf8(
        t.owner@,
    ) + seq![if t.admin_authored { 1u8 } else { 0u8 }] + vstd::utf8::encode_utf8(t.category@)
}

/// The hash under which the backend stores a test with these serialized modifiers.
pub fn stored_test_hash(test: &Test, compiler_json: &str, binary_json: &str) -> (res: String)
    ensures
        res@ == sha256_hex(stored_hash_input(*test, compiler_json@, binary_json@)),
{
    let mut bytes: Vec<u8> = Vec::new();
    bytes.extend_from_slice(compiler_json.as_bytes());
    bytes.extend_from_slice(binary_json.as_bytes());
    bytes.extend_from_slice(test.owner.0.as_str().as_bytes());
    bytes.push(if test.admin_authored { 1u8 } else { 0u8 });
    bytes.extend_from_slice(test.category.as_str().as_bytes());
    assert(bytes@ =~= stored_hash_input(*test, compiler_json@, binary_json@));
    sha256_digest_hex(bytes.as_slice())
}

/// The test list: every test in short, and the categories with their dates.
#[derive(Debug, Clone)]
pub struct ListTestsResponse {
    pub tests: Vec<TestSummary>,
    pub categories: Vec<(String, TestCategory)>,
}

/// A test as a team submits it.
#[derive(Debug, Clone)]
pub struct AddTestPayload {
    pub compiler_modifiers: Vec<TestModifier>,
    pub binary_modifiers: Vec<TestModifier>,
    pub category: String,
    pub ignore_test_tasting: bool,
}

/// The answer to a submitted test: the stored test, or the failed tasting that kept it out.
#[derive(Debug, Clone)]
pub enum SetTestResponse {
    TestAdded(Test),
    TastingFailed { output: TestExecutionOutput },
}

/// The dates of the category named `name`: those of its first entry.
pub open spec fn category_lookup(cats: Seq<(String, TestCategory)>, name: Seq<char>) -> Option<TestCategory>
    decreases cats.len(),
{
    if cats.len() == 0 {
        None
    } else if cats[0].0@ == name {
        Some(cats[0].1)
    } else {
        category_lookup(cats.drop_first(), name)
    }
}

/// The dates of the category named `name`, if it is configured.
pub fn find_category(config: &TestConfig, name: &str) -> (res: Option<TestCategory>)
    ensures
        res == category_lookup(config.categories@, name@),
{
    let cats = &config.categories;
    let mut i: usize = 0;
    assert(cats@.skip(0) =~= cats@);
    while i < cats.len()
        invariant
            i <= cats.len(),
            cats@ == config.categories@,
            category_lookup(cats@.skip(i as int), name@) == category_lookup(cats@, name@),
        decreases cats.len() - i,
    {
        let ghost rest = cats@.skip(i as int);
        assert(rest[0] == cats@[i as int]);
        if same_text(cats[i].0.as_str(), name) {
            return Some(cats[i].1);
        }
        assert(rest.drop_first() =~= cats@.skip(i + 1));
        i = i + 1;
    }
    assert(cats@.skip(i as int) =~= Seq::<(String, TestCategory)>::empty());
    None
}

/// Whether a team other than the owner, and no admin, tries to change an existing test.
pub open spec fn edit_by_stranger(existing: Option<Test>, team: Seq<char>, is_admin: bool) -> bool {
    existing matches Some(t) && t.owner@ != team && !is_admin
}

/// Whether a submission to a category falls after its test deadline at `now`.
pub open spec fn submitted_late(cat: Option<TestCategory>, now: int) -> bool {
    cat matches Some(c) && c.tests_end_at < now
}

/// Whether a non-admin tries to change a finalized test after the deadline of the category it
/// is submitted to.
pub open spec fn edit_of_finalized(existing: Option<Test>, late: bool, is_admin: bool) -> bool {
    existing matches Some(t) && late && !is_admin && t.provisional_for_category is None
}

/// The test to store for a submission under `test_id` by `team` at `now` (milliseconds since the
/// epoch), where `existing` is the test stored under that id, if any. A test keeps its owner, its
/// authorship and its limitation when someone else (an admin) edits it; a test submitted after the
/// category's test deadline is provisional for that category. Refused: a stranger's edit
/// (`Unauthorized`), an unknown category (`NamedNotFound`), and a non-admin's edit of a finalized
/// test after the deadline (`NamedUnauthorized`).
pub fn prepare_test(
    test_id: TestId,
    team: &TeamId,
    is_admin: bool,
    existing: Option<&Test>,
    payload: AddTestPayload,
    config: &TestConfig,
    now: i64,
) -> (res: Result<Test, WebError>)
    ensures
        ({
            let ex = match existing { Some(t) => Some(*t), None => None };
            let cat = category_lookup(config.categories@, payload.category@);
            let late = submitted_late(cat, now as int);
            &&& edit_by_stranger(ex, team@, is_admin) ==> (res matches Err(WebError::Unauthorized))
            &&& (!edit_by_stranger(ex, team@, is_admin) && cat is None) ==> (res matches Err(
                WebError::NamedNotFound { what },
            ) && what@ == payload.category@)
            &&& (!edit_by_stranger(ex, team@, is_admin) && cat is Some && edit_of_finalized(ex, late, is_admin))
                ==> (res matches Err(WebError::NamedUnauthorized { action })
                && action@ == "edit an existing test after test deadline"@)
            &&& (!edit_by_stranger(ex, team@, is_admin) && cat is Some && !edit_of_finalized(ex, late, is_admin))
                ==> (res matches Ok(t) && t.id@ == test_id@ && t.category@ == payload.category@
                && t.compiler_modifiers@ == payload.compiler_modifiers@
                && t.binary_modifiers@ == payload.binary_modifiers@
                && t.last_updated == now
                && (late ==> (t.provisional_for_category matches Some(c) && c@ == payload.category@))
                && (!late ==> t.provisional_for_category is None)
                && match ex {
                    Some(e) => t.owner@ == e.owner@ && t.admin_authored == e.admin_authored
                        && t.limited_to_category == e.limited_to_category,
                    None => t.owner@ == team@ && t.admin_authored == is_admin && !t.limited_to_category,
                })
        }),
{
    let mut owner = team.duplicate();
    let mut admin_authored = is_admin;
    let mut limited_to_category = false;
    if let Some(e) = existing {
        if !same_text(e.owner.0.as_str(), team.0.as_str()) && !is_admin {
            return Err(WebError::Unauthorized);
        }
        owner = e.owner.duplicate();
        admin_authored = e.admin_authored;
        limited_to_category = e.limited_to_category;
    }
    let category = match find_category(config, payload.category.as_str()) {
        Some(c) => c,
        None => {
            return Err(WebError::NamedNotFound { what: payload.category });
        },
    };
    let provisional = category.is_after_test_deadline(now);
    if let Some(e) = existing {
        if provisional && !is_admin && e.provisional_for_category.is_none() {
            return Err(WebError::NamedUnauthorized {
                action: String::from_str("edit an existing test after test deadline"),
            });
        }
    }
    let provisional_for_category = if provisional {
        Some(payload.category.clone())
    } else {
        None
    };
    Ok(Test {
        id: test_id,
        compiler_modifiers: payload.compiler_modifiers,
        binary_modifiers: payload.binary_modifiers,
        owner,
        admin_authored,
        category: payload.category,
        provisional_for_category,
        limited_to_category,
        last_updated: now,
    })
}

/// What becomes of a submission after tasting: `Err` with the answer when the reference compiler
/// failed the test and the submitter did not ask to ignore that, else `Ok` with the tasting result
/// to store beside the test.
pub fn tasting_verdict(tasting: Option<TestExecutionOutput>, ignore_test_tasting: bool) -> (res: Result<
    Option<TestExecutionOutput>,
    SetTestResponse,
>)
    ensures
        (tasting matches Some(o) && !is_test_success(o) && !ignore_test_tasting) ==> res == Err::<
            Option<TestExecutionOutput>,
            SetTestResponse,
        >(SetTestResponse::TastingFailed { output: tasting->0 }),
        !(tasting matches Some(o) && !is_test_success(o) && !ignore_test_tasting) ==> res == Ok::<
            Option<TestExecutionOutput>,
            SetTestResponse,
        >(tasting),
{
    match tasting {
        Some(output) => {
            let success = matches!(output, TestExecutionOutput::Success { .. });
            if !success && !ignore_test_tasting {
                Err(SetTestResponse::TastingFailed { output })
            } else {
                Ok(Some(output))
            }
        },
        None => Ok(None),
    }
}

/// Whether `team` may delete the test `existing` (the test stored under the id, if any) at `now`.
/// Admins may always. Others get `NotFound` for a missing test, `Unauthorized` for another team's,
/// and `NamedUnauthorized` for a finalized test of a category whose test deadline has passed.
pub fn check_delete(team: &TeamId, is_admin: bool, existing: Option<&Test>, config: &TestConfig, now: i64) -> (res:
    Result<(), WebError>)
    ensures
        is_admin ==> res is Ok,
        !is_admin ==> match existing {
            None => res matches Err(WebError::NotFound),
            Some(t) => if t.owner@ != team@ {
                res matches Err(WebError::Unauthorized)
            } else if t.provisional_for_category is None && submitted_late(
                category_lookup(config.categories@, t.category@),
                now as int,
            ) {
                res matches Err(WebError::NamedUnauthorized { action }) && action@ == "delete a finalized test"@
            } else {
                res is Ok
            },
        },
{
    if is_admin {
        return Ok(());
    }
    let t = match existing {
        Some(t) => t,
        None => {
            return Err(WebError::NotFound);
        },
    };
    if !same_text(t.owner.0.as_str(), team.0.as_str()) {
        return Err(WebError::Unauthorized);
    }
    if let Some(category) = find_category(config, t.category.as_str()) {
        if t.provisional_for_category.is_none() && category.is_after_test_deadline(now) {
            return Err(WebError::NamedUnauthorized { action: String::from_str("delete a finalized test") });
        }
    }
    Ok(())
}

} // verus!

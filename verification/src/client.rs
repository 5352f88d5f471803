//! The command-line client's view of tests and of the signed-in user.
use vstd::prelude::*;
use sha2::{Digest, Sha256};
use crate::modifiers::{ModifierView, TestModifier, modifiers_view};
use crate::text::{same_text, seq_lt, chars_lt, chars_of, lemma_seq_lt_transitive, lemma_seq_lt_total, lemma_seq_lt_irreflexive, lines_of, lines_spec, strings_view};

verus! {

/// A test as the client lists it: where it belongs and who wrote it.
#[derive(Debug, Clone)]
pub struct Test {
    pub id: String,
    pub creator_id: String,
    pub admin_authored: bool,
    pub limited_to_category: bool,
    pub category: String,
    pub hash: String,
}

/// The abstract value of a client [`Test`].
pub struct TestView {
    pub id: Seq<char>,
    pub creator_id: Seq<char>,
    pub admin_authored: bool,
    pub limited_to_category: bool,
    pub category: Seq<char>,
    pub hash: Seq<char>,
}

impl View for Test {
    type V = TestView;

    open spec fn view(&self) -> TestView {
        TestView {
            id: self.id@,
            creator_id: self.creator_id@,
            admin_authored: self.admin_authored,
            limited_to_category: self.limited_to_category,
            category: self.category@,
            hash: self.hash@,
        }
    }
}

/// What a test runs: the modifiers of the compiler run and of the binary run.
#[derive(Debug)]
pub struct TestDetail {
    pub compiler_modifiers: Vec<TestModifier>,
    pub binary_modifiers: Vec<TestModifier>,
}

/// The abstract value of a [`TestDetail`].
pub struct DetailView {
    pub compiler_modifiers: Seq<ModifierView>,
    pub binary_modifiers: Seq<ModifierView>,
}

impl View for TestDetail {
    type V = DetailView;

    open spec fn view(&self) -> DetailView {
        DetailView {
            compiler_modifiers: modifiers_view(self.compiler_modifiers@),
            binary_modifiers: modifiers_view(self.binary_modifiers@),
        }
    }
}

impl Test {
    /// A copy of this test.
    pub fn duplicate(&self) -> (res: Self)
        ensures
            res@ == self@,
    {
        Test {
            id: self.id.clone(),
            creator_id: self.creator_id.clone(),
            admin_authored: self.admin_authored,
            limited_to_category: self.limited_to_category,
            category: self.category.clone(),
            hash: self.hash.clone(),
        }
    }
}

/// A local test file: the test and what it runs.
#[derive(Debug)]
pub struct FullTest {
    pub test: Test,
    pub detail: TestDetail,
}

/// The signed-in user, as the backend describes them.
#[derive(Debug, Clone)]
pub struct Myself {
    pub display_name: String,
    pub team: Option<String>,
}

/// The backend's answer to "who am I".
#[derive(Debug, Clone)]
pub struct MyselfResponse {
    pub user: Myself,
}


/// Filtering one more element of a sequence.
pub proof fn lemma_filter_take_step<A>(s: Seq<A>, p: spec_fn(A) -> bool, i: int)
    requires
        0 <= i < s.len(),
    ensures
        s.take(i + 1).filter(p) == if p(s[i]) {
            s.take(i).filter(p).push(s[i])
        } else {
            s.take(i).filter(p)
        },
{
    reveal(Seq::filter);
    let t = s.take(i + 1);
    assert(t.drop_last() =~= s.take(i));
    assert(t.last() == s[i]);
    assert(t.len() > 0);
    assert(t.filter(p) == if p(t.last()) {
        t.drop_last().filter(p).push(t.last())
    } else {
        t.drop_last().filter(p)
    });
}

/// Whether the local test `l` is the remote test `r`: same id in the same category.
pub open spec fn same_test(r: TestView, l: TestView) -> bool {
    r.id == l.id && r.category == l.category
}

/// The views of a sequence of tests.
pub open spec fn tests_view(v: Seq<Test>) -> Seq<TestView> {
    v.map_values(|t: Test| t@)
}

/// The tests of local test files.
pub open spec fn local_view(v: Seq<FullTest>) -> Seq<TestView> {
    v.map_values(|t: FullTest| t.test@)
}

/// Whether some local test is `r`.
pub open spec fn has_local(r: TestView, local: Seq<TestView>) -> bool {
    exists|j: int| 0 <= j < local.len() && same_test(r, #[trigger] local[j])
}

/// The remote tests that have no local file.
pub open spec fn remote_only_spec(remote: Seq<TestView>, local: Seq<TestView>) -> Seq<TestView> {
    remote.filter(|r: TestView| !has_local(r, local))
}

/// The index of the first local test that is `r`.
pub open spec fn first_local(r: TestView, local: Seq<TestView>) -> Option<int>
    decreases local.len(),
{
    if local.len() == 0 {
        None
    } else if same_test(r, local[0]) {
        Some(0)
    } else {
        match first_local(r, local.drop_first()) {
            Some(j) => Some(j + 1),
            None => None,
        }
    }
}

/// Whether the first local file of `r` has another hash.
pub open spec fn local_hash_differs(r: TestView, local: Seq<TestView>) -> bool {
    match first_local(r, local) {
        Some(j) => local[j].hash != r.hash,
        None => false,
    }
}

/// The remote tests whose local file has another hash (the first local file of the test
/// decides).
pub open spec fn remote_changed_spec(remote: Seq<TestView>, local: Seq<TestView>) -> Seq<TestView> {
    remote.filter(|r: TestView| local_hash_differs(r, local))
}

fn find_local(r: &Test, local: &Vec<FullTest>) -> (res: Option<usize>)
    ensures
        match first_local(r@, local_view(local@)) {
            Some(j) => res == Some(j as usize),
            None => res is None,
        },
{
    let ghost lv = local_view(local@);
    let mut j: usize = 0;
    assert(lv.skip(0) =~= lv);
    while j < local.len()
        invariant
            j <= local.len(),
            lv == local_view(local@),
            first_local(r@, lv) == match first_local(r@, lv.skip(j as int)) {
                Some(k) => Some(k + j),
                None => None::<int>,
            },
        decreases local.len() - j,
    {
        assert(lv.skip(j as int).drop_first() =~= lv.skip(j + 1));
        assert(lv.skip(j as int)[0] == local@[j as int].test@);
        if local[j].test.id == r.id && local[j].test.category == r.category {
            return Some(j);
        }
        j = j + 1;
    }
    None
}

proof fn lemma_first_local_none(r: TestView, local: Seq<TestView>)
    ensures
        first_local(r, local) is None <==> !has_local(r, local),
        first_local(r, local) matches Some(j) ==> 0 <= j < local.len() && same_test(r, local[j]),
    decreases local.len(),
{
    if local.len() > 0 {
        lemma_first_local_none(r, local.drop_first());
        if exists|j: int| 0 <= j < local.len() && same_test(r, #[trigger] local[j]) {
            let j = choose|j: int| 0 <= j < local.len() && same_test(r, #[trigger] local[j]);
            if j > 0 {
                assert(local.drop_first()[j - 1] == local[j]);
            }
        }
        if exists|j: int| 0 <= j < local.len() - 1 && same_test(r, #[trigger] local.drop_first()[j]) {
            let j = choose|j: int| 0 <= j < local.len() - 1 && same_test(r, #[trigger] local.drop_first()[j]);
            assert(local[j + 1] == local.drop_first()[j]);
        }
    }
}

/// Which remote tests a sync downloads: as new, exactly the remote tests that no local test has
/// the id and category of; as changed, exactly the remote tests whose first local test with the
/// same id and category has another hash.
pub proof fn lemma_sync_selection(remote: Seq<TestView>, local: Seq<TestView>, r: TestView)
    ensures
        remote_only_spec(remote, local).contains(r) <==> remote.contains(r) && forall|j: int|
            0 <= j < local.len() ==> !(local[j].id == r.id && local[j].category == r.category),
        remote_changed_spec(remote, local).contains(r) <==> remote.contains(r) && exists|j: int|
            0 <= j < local.len() && local[j].id == r.id && local[j].category == r.category && local[j].hash
                != r.hash && forall|k: int| 0 <= k < j ==> !(local[k].id == r.id && local[k].category == r.category),
{
    broadcast use vstd::seq_lib::group_filter_ensures;

    let p1 = |x: TestView| !has_local(x, local);
    let p2 = |x: TestView| local_hash_differs(x, local);
    lemma_first_local_none(r, local);
    lemma_first_local_first(r, local);
    if remote_only_spec(remote, local).contains(r) {
        remote.lemma_filter_contains_rev(p1, r);
        let k = choose|k: int| 0 <= k < remote.filter(p1).len() && remote.filter(p1)[k] == r;
        assert(p1(remote.filter(p1)[k]));
    }
    if remote.contains(r) && !has_local(r, local) {
        let i = choose|i: int| 0 <= i < remote.len() && remote[i] == r;
        remote.lemma_filter_contains(p1, i);
    }
    if remote_changed_spec(remote, local).contains(r) {
        remote.lemma_filter_contains_rev(p2, r);
        let k = choose|k: int| 0 <= k < remote.filter(p2).len() && remote.filter(p2)[k] == r;
        assert(p2(remote.filter(p2)[k]));
    }
    if remote.contains(r) && local_hash_differs(r, local) {
        let i = choose|i: int| 0 <= i < remote.len() && remote[i] == r;
        remote.lemma_filter_contains(p2, i);
    }
    if exists|j: int|
        0 <= j < local.len() && local[j].id == r.id && local[j].category == r.category && local[j].hash != r.hash
            && forall|k: int| 0 <= k < j ==> !(local[k].id == r.id && local[k].category == r.category) {
        let j = choose|j: int|
            0 <= j < local.len() && local[j].id == r.id && local[j].category == r.category && local[j].hash != r.hash
                && forall|k: int| 0 <= k < j ==> !(local[k].id == r.id && local[k].category == r.category);
        assert(same_test(r, local[j]));
        let f = first_local(r, local)->0;
        if f < j {
            assert(same_test(r, local[f]));
        } else if f > j {
            assert(!same_test(r, local[j]));
        }
    }
    if let Some(f) = first_local(r, local) {
        assert(forall|k: int| 0 <= k < f ==> !same_test(r, #[trigger] local[k]));
    }
    assert(forall|j: int| 0 <= j < local.len() ==> (same_test(r, #[trigger] local[j]) <==> (local[j].id == r.id
        && local[j].category == r.category)));
}

proof fn lemma_first_local_first(r: TestView, local: Seq<TestView>)
    ensures
        first_local(r, local) matches Some(f) ==> forall|k: int| 0 <= k < f ==> !same_test(r, #[trigger] local[k]),
        first_local(r, local) is None ==> forall|k: int| 0 <= k < local.len() ==> !same_test(r, #[trigger] local[k]),
    decreases local.len(),
{
    if local.len() > 0 {
        let d = local.drop_first();
        lemma_first_local_first(r, d);
        lemma_first_local_none(r, d);
        if !same_test(r, local[0]) {
            match first_local(r, d) {
                Some(g) => {
                    assert forall|k: int| 0 <= k < g + 1 implies !same_test(r, #[trigger] local[k]) by {
                        if k > 0 {
                            assert(local[k] == d[k - 1]);
                        }
                    }
                },
                None => {
                    assert forall|k: int| 0 <= k < local.len() implies !same_test(r, #[trigger] local[k]) by {
                        if k > 0 {
                            assert(local[k] == d[k - 1]);
                        }
                    }
                },
            }
        }
    }
}

/// A sync brings every remote test up to date: each remote test is downloaded as new, or
/// downloaded as changed, or already has a local file with its hash; and no test counts both as
/// new and as changed.
pub proof fn lemma_sync_covers_remote(remote: Seq<TestView>, local: Seq<TestView>, i: int)
    requires
        0 <= i < remote.len(),
    ensures
        ({
            let r = remote[i];
            let new = remote_only_spec(remote, local).contains(r);
            let changed = remote_changed_spec(remote, local).contains(r);
            let current = first_local(r, local) matches Some(j) && local[j].hash == r.hash;
            &&& new || changed || current
            &&& !(!has_local(r, local) && local_hash_differs(r, local))
        }),
{
    let r = remote[i];
    lemma_first_local_none(r, local);
    if !has_local(r, local) {
        remote.lemma_filter_contains(|x: TestView| !has_local(x, local), i);
    } else if local_hash_differs(r, local) {
        remote.lemma_filter_contains(|x: TestView| local_hash_differs(x, local), i);
    }
}

/// The remote tests that have no local file.
pub fn get_remote_only_tests(remote: &Vec<Test>, local: &Vec<FullTest>) -> (res: Vec<Test>)
    ensures
        tests_view(res@) == remote_only_spec(tests_view(remote@), local_view(local@)),
{
    let ghost rv = tests_view(remote@);
    let ghost lv = local_view(local@);
    let mut res: Vec<Test> = Vec::new();
    let mut i: usize = 0;
    while i < remote.len()
        invariant
            i <= remote.len(),
            rv == tests_view(remote@),
            lv == local_view(local@),
            tests_view(res@) == remote_only_spec(rv.take(i as int), lv),
        decreases remote.len() - i,
    {
        proof {
            assert(rv.take(i + 1).drop_last() =~= rv.take(i as int));
            assert(rv.take(i + 1).last() == remote@[i as int]@);
            lemma_first_local_none(remote@[i as int]@, lv);
        }
        let found = find_local(&remote[i], local);
        let ghost before = tests_view(res@);
        let ghost r = remote@[i as int]@;
        assert(found.is_none() == !has_local(r, lv));
        proof { lemma_filter_take_step(rv, |r: TestView| !has_local(r, lv), i as int); }
        assert(remote_only_spec(rv.take(i + 1), lv) == if !has_local(r, lv) {
            remote_only_spec(rv.take(i as int), lv).push(r)
        } else {
            remote_only_spec(rv.take(i as int), lv)
        });
        if found.is_none() {
            res.push(remote[i].duplicate());
            assert(tests_view(res@) =~= before.push(rv[i as int]));
        }
        assert(tests_view(res@) == remote_only_spec(rv.take(i + 1), lv));
        i = i + 1;
    }
    assert(rv.take(i as int) =~= rv);
    res
}

/// The remote tests whose local file has another hash.
pub fn get_remote_changed_tests(remote: &Vec<Test>, local: &Vec<FullTest>) -> (res: Vec<Test>)
    ensures
        tests_view(res@) == remote_changed_spec(tests_view(remote@), local_view(local@)),
{
    let ghost rv = tests_view(remote@);
    let ghost lv = local_view(local@);
    let mut res: Vec<Test> = Vec::new();
    let mut i: usize = 0;
    while i < remote.len()
        invariant
            i <= remote.len(),
            rv == tests_view(remote@),
            lv == local_view(local@),
            tests_view(res@) == remote_changed_spec(rv.take(i as int), lv),
        decreases remote.len() - i,
    {
        proof {
            assert(rv.take(i + 1).drop_last() =~= rv.take(i as int));
            assert(rv.take(i + 1).last() == remote@[i as int]@);
            lemma_first_local_none(remote@[i as int]@, lv);
        }
        let found = find_local(&remote[i], local);
        let ghost before = tests_view(res@);
        let ghost r = remote@[i as int]@;
        proof { lemma_filter_take_step(rv, |r: TestView| local_hash_differs(r, lv), i as int); }
        assert(remote_changed_spec(rv.take(i + 1), lv) == if local_hash_differs(r, lv) {
            remote_changed_spec(rv.take(i as int), lv).push(r)
        } else {
            remote_changed_spec(rv.take(i as int), lv)
        });
        match found {
            Some(j) => {
                assert(lv[j as int] == local@[j as int].test@);
                assert(first_local(r, lv) is Some);
                let ghost k = first_local(r, lv)->0;
                assert(0 <= k < lv.len());
                assert(lv.len() == local.len());
                assert(j as int == k);
                assert(local_hash_differs(r, lv) == (lv[j as int].hash != r.hash));
                if local[j].test.hash != remote[i].hash {
                    res.push(remote[i].duplicate());
                    assert(tests_view(res@) =~= before.push(rv[i as int]));
                }
            },
            None => {},
        }
        assert(tests_view(res@) == remote_changed_spec(rv.take(i + 1), lv));
        i = i + 1;
    }
    assert(rv.take(i as int) =~= rv);
    res
}

/// The lowercase hexadecimal SHA-256 digest of `bytes`.
pub uninterp spec fn sha256_hex(bytes: Seq<u8>) -> Seq<char>;

/// Hashes `bytes` with `sha2::Sha256` and formats the digest with `{:x}`. The contract claims
/// that the text is a function of the bytes, and what the formatting of a 32-byte digest
/// gives: 64 lowercase hexadecimal digits.
#[verifier::external_body]
pub(crate) fn sha256_digest_hex(bytes: &[u8]) -> (res: String)
    ensures
        res@ == sha256_hex(bytes@),
        res@.len() == 64,
        forall|i: int| 0 <= i < 64 ==> ('0' <= #[trigger] res@[i] <= '9' || 'a' <= res@[i] <= 'f'),
{
    let mut hash = Sha256::new();
    hash.update(bytes);
    format!("{:x}", hash.finalize())
}

/// The bytes that a test's hash covers: the serialized compiler and binary modifiers, the
/// creator, the two flags as one byte each, and the category.
pub open spec fn hash_input(t: TestView, compiler_json: Seq<char>, binary_json: Seq<char>) -> Seq<u8> {
    vstd::utf8::encode_utf8(compiler_json) + vstd::utf8::encode_utf8(binary_json) + vstd::utf8::encode_utf8(
        t.creator_id,
    ) + seq![if t.admin_authored { 1u8 } else { 0u8 }] + seq![if t.limited_to_category { 1u8 } else { 0u8 }]
        + vstd::utf8::encode_utf8(t.category)
}

/// The hash that a test with these serialized modifiers should carry.
pub fn test_hash(test: &Test, compiler_json: &str, binary_json: &str) -> (res: String)
    ensures
        res@ == sha256_hex(hash_input(test@, compiler_json@, binary_json@)),
{
    let mut bytes: Vec<u8> = Vec::new();
    bytes.extend_from_slice(compiler_json.as_bytes());
    bytes.extend_from_slice(binary_json.as_bytes());
    bytes.extend_from_slice(test.creator_id.as_str().as_bytes());
    bytes.push(if test.admin_authored { 1u8 } else { 0u8 });
    bytes.push(if test.limited_to_category { 1u8 } else { 0u8 });
    bytes.extend_from_slice(test.category.as_str().as_bytes());
    assert(bytes@ =~= hash_input(test@, compiler_json@, binary_json@));
    sha256_digest_hex(bytes.as_slice())
}

/// Whether the recorded hash of `local[i]` differs from the hash of its contents, with the
/// serialized modifiers `serialized[i]`.
pub open spec fn hash_mismatch(local: Seq<FullTest>, serialized: Seq<(String, String)>, i: int) -> bool {
    local[i].test.hash@ != sha256_hex(hash_input(local[i].test@, serialized[i].0@, serialized[i].1@))
}

/// The indices below `n` of the local tests whose hash does not match.
pub open spec fn inconsistent_upto(local: Seq<FullTest>, serialized: Seq<(String, String)>, n: int) -> Seq<usize>
    decreases n,
{
    if n <= 0 {
        Seq::empty()
    } else if hash_mismatch(local, serialized, n - 1) {
        inconsistent_upto(local, serialized, n - 1).push((n - 1) as usize)
    } else {
        inconsistent_upto(local, serialized, n - 1)
    }
}

/// The indices of the local tests whose recorded hash differs from the hash of their
/// contents; `serialized[i]` holds the serialized compiler and binary modifiers of `local[i]`.
pub fn get_locally_inconsistent_tests(local: &Vec<FullTest>, serialized: &Vec<(String, String)>) -> (res: Vec<usize>)
    requires
        serialized.len() == local.len(),
    ensures
        res@ == inconsistent_upto(local@, serialized@, local.len() as int),
{
    let mut res: Vec<usize> = Vec::new();
    let mut i: usize = 0;
    while i < local.len()
        invariant
            i <= local.len(),
            serialized.len() == local.len(),
            res@ == inconsistent_upto(local@, serialized@, i as int),
        decreases local.len() - i,
    {
        let h = test_hash(&local[i].test, serialized[i].0.as_str(), serialized[i].1.as_str());
        if local[i].test.hash != h {
            res.push(i);
        }
        i = i + 1;
    }
    res
}


/// Whether the remote tests hold a test with the id, category and hash of `l`.
pub open spec fn matches_remote(l: TestView, remote: Seq<TestView>) -> bool {
    exists|j: int| 0 <= j < remote.len() && same_test(#[trigger] remote[j], l) && remote[j].hash == l.hash
}

/// Whether some remote test has the id, category and hash of `l`.
pub fn has_matching_remote(l: &Test, remote: &Vec<Test>) -> (res: bool)
    ensures
        res == matches_remote(l@, tests_view(remote@)),
{
    let ghost rv = tests_view(remote@);
    let mut j: usize = 0;
    while j < remote.len()
        invariant
            j <= remote.len(),
            rv == tests_view(remote@),
            forall|k: int| 0 <= k < j ==> !(same_test(#[trigger] rv[k], l@) && rv[k].hash == l@.hash),
        decreases remote.len() - j,
    {
        if remote[j].id == l.id && remote[j].category == l.category && remote[j].hash == l.hash {
            assert(same_test(rv[j as int], l@) && rv[j as int].hash == l@.hash);
            return true;
        }
        j = j + 1;
    }
    false
}

/// The index of the first remote test with the id and category of `l`.
pub open spec fn first_remote(l: TestView, remote: Seq<TestView>) -> Option<int>
    decreases remote.len(),
{
    if remote.len() == 0 {
        None
    } else if same_test(remote[0], l) {
        Some(0)
    } else {
        match first_remote(l, remote.drop_first()) {
            Some(j) => Some(j + 1),
            None => None,
        }
    }
}

/// The first remote test with the id and category of `l`, which is downloaded again when the
/// local file of `l` is inconsistent.
pub fn find_remote(l: &Test, remote: &Vec<Test>) -> (res: Option<usize>)
    ensures
        match first_remote(l@, tests_view(remote@)) {
            Some(j) => res == Some(j as usize),
            None => res is None,
        },
{
    let ghost rv = tests_view(remote@);
    let mut j: usize = 0;
    assert(rv.skip(0) =~= rv);
    while j < remote.len()
        invariant
            j <= remote.len(),
            rv == tests_view(remote@),
            first_remote(l@, rv) == match first_remote(l@, rv.skip(j as int)) {
                Some(k) => Some(k + j),
                None => None::<int>,
            },
        decreases remote.len() - j,
    {
        assert(rv.skip(j as int).drop_first() =~= rv.skip(j + 1));
        assert(rv.skip(j as int)[0] == remote@[j as int]@);
        if remote[j].id == l.id && remote[j].category == l.category {
            return Some(j);
        }
        j = j + 1;
    }
    None
}

/// Whether the sync changed or deleted files without committing them first, which the client
/// warns about.
pub fn sync_needs_commit_warning(
    commit_changes: bool,
    deleted_any: bool,
    inconsistent: usize,
    remote_changed: usize,
) -> (res: bool)
    ensures
        res == (!commit_changes && (deleted_any || inconsistent > 0 || remote_changed > 0)),
{
    !commit_changes && (deleted_any || inconsistent > 0 || remote_changed > 0)
}

/// Whether a file found in the test directory is deleted as local-only: it is a file, no
/// remote test expects it, no component of its path starts with a dot, and its name ends in
/// `.crow-test.md`.
pub open spec fn deletes_file(expected: bool, is_file: bool, components: Seq<Seq<char>>, name: Seq<char>) -> bool {
    !expected && is_file && !(exists|i: int| 0 <= i < components.len() && #[trigger] components[i].len() > 0
        && components[i][0] == '.') && ends_with_spec(name, ".crow-test.md"@)
}

/// Whether `s` ends with `suffix`.
pub open spec fn ends_with_spec(s: Seq<char>, suffix: Seq<char>) -> bool {
    suffix.len() <= s.len() && s.subrange(s.len() - suffix.len(), s.len() as int) == suffix
}

/// Whether `s` ends with `suffix`.
pub fn ends_with(s: &str, suffix: &str) -> (res: bool)
    ensures
        res == ends_with_spec(s@, suffix@),
{
    let a = chars_of(s);
    let b = chars_of(suffix);
    if b.len() > a.len() {
        return false;
    }
    let off = a.len() - b.len();
    let mut i: usize = 0;
    while i < b.len()
        invariant
            i <= b.len(),
            off + b.len() == a.len(),
            a@ == s@,
            b@ == suffix@,
            forall|k: int| 0 <= k < i ==> a@[off + k] == b@[k],
        decreases b.len() - i,
    {
        if a[off + i] != b[i] {
            assert(s@.subrange(s@.len() - suffix@.len(), s@.len() as int)[i as int] != suffix@[i as int]);
            return false;
        }
        i = i + 1;
    }
    assert(s@.subrange(s@.len() - suffix@.len(), s@.len() as int) =~= suffix@);
    true
}

/// Whether a file found in the test directory is deleted as local-only.
pub fn should_delete_file(expected: bool, is_file: bool, components: &Vec<String>, name: &str) -> (res: bool)
    ensures
        res == deletes_file(expected, is_file, components@.map_values(|c: String| c@), name@),
{
    let ghost cs = components@.map_values(|c: String| c@);
    if expected || !is_file {
        return false;
    }
    let mut i: usize = 0;
    while i < components.len()
        invariant
            i <= components.len(),
            cs == components@.map_values(|c: String| c@),
            forall|k: int| 0 <= k < i ==> !(#[trigger] cs[k].len() > 0 && cs[k][0] == '.'),
        decreases components.len() - i,
    {
        let c = chars_of(components[i].as_str());
        if c.len() > 0 && c[0] == '.' {
            assert(cs[i as int].len() > 0 && cs[i as int][0] == '.');
            return false;
        }
        i = i + 1;
    }
    ends_with(name, ".crow-test.md")
}


/// The position of the last `/` in `s`.
pub open spec fn last_slash(s: Seq<char>) -> Option<int>
    decreases s.len(),
{
    if s.len() == 0 {
        None
    } else if s.last() == '/' {
        Some(s.len() - 1)
    } else {
        last_slash(s.drop_last())
    }
}

proof fn lemma_last_slash_range(s: Seq<char>)
    ensures
        last_slash(s) matches Some(i) ==> 0 <= i < s.len() && s[i] == '/',
    decreases s.len(),
{
    if s.len() > 0 && s.last() != '/' {
        lemma_last_slash_range(s.drop_last());
    }
}

/// The last component of a path: what follows its last `/`.
pub open spec fn file_name_spec(s: Seq<char>) -> Seq<char> {
    match last_slash(s) {
        Some(i) => s.subrange(i + 1, s.len() as int),
        None => s,
    }
}

/// The path without its last component.
pub open spec fn parent_spec(s: Seq<char>) -> Option<Seq<char>> {
    match last_slash(s) {
        Some(i) => Some(s.subrange(0, i)),
        None => None,
    }
}

/// The category and name of the test file at the canonical path `p`, or why they cannot be
/// told: the file is `<category>/<name>.crow-test.md`.
pub open spec fn infer_spec(p: Seq<char>) -> Result<(Seq<char>, Seq<char>), Seq<char>> {
    let name = file_name_spec(p);
    if name.len() == 0 {
        Err("Path has no filename"@)
    } else if !ends_with_spec(name, ".crow-test.md"@) {
        Err("File has no `.crow-test.md` suffix"@)
    } else {
        match parent_spec(p) {
            None => Err("File has no parent directory"@),
            Some(parent) => if file_name_spec(parent).len() == 0 {
                Err("Parent folder has no file name"@)
            } else {
                Ok((file_name_spec(parent), name.subrange(0, name.len() - ".crow-test.md"@.len())))
            },
        }
    }
}

/// Whether `s` holds no `/`.
pub open spec fn no_slash(s: Seq<char>) -> bool {
    forall|i: int| 0 <= i < s.len() ==> s[i] != '/'
}

proof fn lemma_last_slash_append(a: Seq<char>, b: Seq<char>)
    requires
        no_slash(b),
    ensures
        last_slash(a + b) == last_slash(a),
    decreases b.len(),
{
    if b.len() > 0 {
        assert((a + b).drop_last() =~= a + b.drop_last());
        assert((a + b).last() == b.last());
        lemma_last_slash_append(a, b.drop_last());
    } else {
        assert(a + b =~= a);
    }
}

/// Reading a test's path back gives its category and id: the category and name inferred from
/// `<root>/<category>/<id>.crow-test.md`, as `Test::path` forms it, are the test's own, for a
/// category that is not empty and holds no `/` and an id that holds no `/`.
pub proof fn lemma_path_read_back(root: Seq<char>, category: Seq<char>, id: Seq<char>)
    requires
        category.len() > 0,
        no_slash(category),
        no_slash(id),
    ensures
        infer_spec(crate::storage::join_path(crate::storage::join_path(root, category), id + ".crow-test.md"@))
            == Ok::<(Seq<char>, Seq<char>), Seq<char>>((category, id)),
{
    reveal_strlit(".crow-test.md");
    let suffix = ".crow-test.md"@;
    let fname = id + suffix;
    assert(no_slash(fname));
    assert(fname.len() > 0 && fname[0] != '/');
    let d = crate::storage::join_path(root, category);
    assert(category[0] != '/');
    // the directory ends with the category, after a slash or at the start
    if root.len() == 0 {
        assert(d == category);
        lemma_last_slash_append(Seq::empty(), category);
        assert(Seq::<char>::empty() + category =~= category);
        assert(file_name_spec(d) == category);
    } else if root.last() == '/' {
        assert(d == root + category);
        assert(last_slash(root) == Some(root.len() - 1));
        lemma_last_slash_append(root, category);
        assert(d.subrange(root.len() as int, d.len() as int) =~= category);
    } else {
        let r1 = root + seq!['/'];
        assert(d == r1 + category);
        assert(r1.drop_last() =~= root);
        assert(last_slash(r1) == Some(root.len() as int));
        lemma_last_slash_append(r1, category);
        assert(d.subrange(root.len() as int + 1, d.len() as int) =~= category);
    }
    assert(file_name_spec(d) == category);
    assert(d.len() > 0 && d.last() == category.last());
    let p = crate::storage::join_path(d, fname);
    let d1 = d + seq!['/'];
    assert(p == d1 + fname);
    assert(d1.drop_last() =~= d);
    assert(last_slash(d1) == Some(d.len() as int));
    lemma_last_slash_append(d1, fname);
    assert(file_name_spec(p) =~= fname);
    assert(parent_spec(p) == Some(p.subrange(0, d.len() as int)));
    assert(p.subrange(0, d.len() as int) =~= d);
    assert(fname.subrange(fname.len() - suffix.len(), fname.len() as int) =~= suffix);
    assert(fname.subrange(0, fname.len() - suffix.len()) =~= id);
}

fn find_last_slash(v: &Vec<char>, end: usize) -> (res: Option<usize>)
    requires
        end <= v.len(),
    ensures
        match res {
            Some(i) => last_slash(v@.take(end as int)) == Some(i as int) && i < end,
            None => last_slash(v@.take(end as int)) is None,
        },
{
    proof {
        lemma_last_slash_range(v@.take(end as int));
    }
    let mut k: usize = end;
    while k > 0
        invariant
            k <= end <= v.len(),
            last_slash(v@.take(end as int)) == last_slash(v@.take(k as int)),
        decreases k,
    {
        assert(v@.take(k as int).drop_last() =~= v@.take(k - 1));
        if v[k - 1] == '/' {
            return Some(k - 1);
        }
        k = k - 1;
    }
    None
}

/// The category and name of the test file at the canonical path `canonical`, as the parent
/// directory and the file name without `.crow-test.md`.
pub fn infer_test_metadata_from_path(canonical: &str) -> (res: Result<(String, String), String>)
    ensures
        match infer_spec(canonical@) {
            Ok((c, n)) => res matches Ok(x) && x.0@ == c && x.1@ == n,
            Err(m) => res matches Err(x) && x@ == m,
        },
{
    let v = chars_of(canonical);
    assert(v@.take(v.len() as int) =~= v@);
    let slash = find_last_slash(&v, v.len());
    let name_start: usize = match slash {
        Some(i) => i + 1,
        None => 0,
    };
    let name = crate::text::string_of(&v.as_slice()[name_start..v.len()]);
    assert(v@.take(v.len() as int) == canonical@);
    assert(name@ =~= v@.subrange(name_start as int, v.len() as int));
    match slash {
        Some(i) => {
            assert(last_slash(canonical@) == Some(i as int));
            assert(file_name_spec(canonical@) == canonical@.subrange(i + 1, canonical@.len() as int));
        },
        None => {
            assert(file_name_spec(canonical@) == canonical@);
        },
    }
    assert(name@ =~= file_name_spec(canonical@));
    if name_start == v.len() {
        return Err(String::from_str("Path has no filename"));
    }
    if !ends_with(name.as_str(), ".crow-test.md") {
        return Err(String::from_str("File has no `.crow-test.md` suffix"));
    }
    let suffix_len = chars_of(".crow-test.md").len();
    let stem = crate::text::string_of(&v.as_slice()[name_start..v.len() - suffix_len]);
    assert(stem@ =~= name@.subrange(0, name@.len() - ".crow-test.md"@.len()));
    match slash {
        None => Err(String::from_str("File has no parent directory")),
        Some(i) => {
            let ghost parent = canonical@.subrange(0, i as int);
            assert(v@.take(i as int) =~= parent);
            assert(parent.take(i as int) =~= parent);
            let pslash = find_last_slash(&v, i);
            let pstart: usize = match pslash {
                Some(j) => j + 1,
                None => 0,
            };
            let pname = crate::text::string_of(&v.as_slice()[pstart..i]);
            assert(v@.take(i as int) == parent);
            assert(pname@ =~= file_name_spec(parent));
            if pstart == i {
                Err(String::from_str("Parent folder has no file name"))
            } else {
                Ok((pname, stem))
            }
        },
    }
}

/// The newest category among the tests, in lexicographic order.
pub open spec fn newest_category(ts: Seq<TestView>) -> Option<Seq<char>>
    decreases ts.len(),
{
    if ts.len() == 0 {
        None
    } else {
        match newest_category(ts.drop_last()) {
            None => Some(ts.last().category),
            Some(m) => if seq_lt(m, ts.last().category) {
                Some(ts.last().category)
            } else {
                Some(m)
            },
        }
    }
}

/// Whether a local test runs: in the requested category, or, without one, unless it is limited
/// to a category other than the newest.
pub open spec fn runs_test(t: TestView, category: Option<Seq<char>>, newest: Option<Seq<char>>) -> bool {
    match category {
        Some(c) => t.category == c,
        None => match newest {
            Some(n) => !t.limited_to_category || t.category == n,
            None => true,
        },
    }
}

proof fn lemma_newest_is_greatest(ts: Seq<TestView>)
    ensures
        ts.len() == 0 ==> newest_category(ts) is None,
        ts.len() > 0 ==> (newest_category(ts) matches Some(n) && (exists|j: int| 0 <= j < ts.len() && ts[j].category == n)
            && forall|j: int| 0 <= j < ts.len() ==> !seq_lt(n, #[trigger] ts[j].category)),
    decreases ts.len(),
{
    if ts.len() > 0 {
        let p = ts.drop_last();
        lemma_newest_is_greatest(p);
        let last = ts.last().category;
        lemma_seq_lt_irreflexive(last);
        match newest_category(p) {
            None => {
                assert(ts[ts.len() - 1].category == last);
            },
            Some(m) => {
                let j0 = choose|j: int| 0 <= j < p.len() && p[j].category == m;
                assert(ts[j0] == p[j0]);
                assert(ts[ts.len() - 1].category == last);
                assert forall|j: int| 0 <= j < ts.len() implies !seq_lt(
                    newest_category(ts)->0,
                    #[trigger] ts[j].category,
                ) by {
                    if j < p.len() {
                        assert(ts[j] == p[j]);
                        if seq_lt(m, last) {
                            if seq_lt(last, ts[j].category) {
                                lemma_seq_lt_transitive(m, last, ts[j].category);
                            }
                        }
                    } else {
                        if !seq_lt(m, last) {
                            lemma_seq_lt_total(m, last);
                        }
                    }
                }
            },
        }
    }
}

/// Which local tests run: with a category requested, exactly those in that category; without
/// one, every test that is not limited to its category, and a limited one exactly when its
/// category is the greatest (the newest) among the local tests.
pub proof fn lemma_tests_to_run_selection(ts: Seq<TestView>, category: Option<Seq<char>>)
    ensures
        ({
            let sel = Seq::new(ts.len() as nat, |i: int| i).filter(
                |i: int| runs_test(ts[i], category, newest_category(ts)),
            );
            &&& forall|x: int| sel.contains(x) ==> 0 <= x < ts.len()
            &&& forall|i: int|
                0 <= i < ts.len() ==> (sel.contains(i) <==> match category {
                    Some(c) => ts[i].category == c,
                    None => !ts[i].limited_to_category || forall|j: int|
                        0 <= j < ts.len() ==> !seq_lt(ts[i].category, #[trigger] ts[j].category),
                })
        }),
{
    broadcast use vstd::seq_lib::group_filter_ensures;

    let all = Seq::new(ts.len() as nat, |i: int| i);
    let pred = |i: int| runs_test(ts[i], category, newest_category(ts));
    let sel = all.filter(pred);
    lemma_newest_is_greatest(ts);
    assert forall|x: int| sel.contains(x) implies 0 <= x < ts.len() && pred(x) by {
        let k = choose|k: int| 0 <= k < sel.len() && sel[k] == x;
        all.lemma_filter_contains_rev(pred, x);
    }
    assert forall|i: int| 0 <= i < ts.len() implies (sel.contains(i) <==> match category {
        Some(c) => ts[i].category == c,
        None => !ts[i].limited_to_category || forall|j: int|
            0 <= j < ts.len() ==> !seq_lt(ts[i].category, #[trigger] ts[j].category),
    }) by {
        assert(all[i] == i);
        if pred(i) {
            all.lemma_filter_contains(pred, i);
        }
        if category is None && ts[i].limited_to_category {
            let c = ts[i].category;
            let n = newest_category(ts)->0;
            let greatest = forall|j: int| 0 <= j < ts.len() ==> !seq_lt(c, #[trigger] ts[j].category);
            if greatest {
                let j0 = choose|j: int| 0 <= j < ts.len() && ts[j].category == n;
                assert(!seq_lt(c, ts[j0].category));
                assert(!seq_lt(n, ts[i].category));
                lemma_seq_lt_total(c, n);
            }
        }
    }
}

/// The newest category of the local tests.
pub fn get_newest_category(tests: &Vec<FullTest>) -> (res: Option<String>)
    ensures
        match newest_category(local_view(tests@)) {
            Some(n) => res matches Some(x) && x@ == n,
            None => res is None,
        },
{
    let ghost lv = local_view(tests@);
    let mut best: Option<String> = None;
    let mut i: usize = 0;
    while i < tests.len()
        invariant
            i <= tests.len(),
            lv == local_view(tests@),
            match newest_category(lv.take(i as int)) {
                Some(n) => best matches Some(x) && x@ == n,
                None => best is None,
            },
        decreases tests.len() - i,
    {
        assert(lv.take(i + 1).drop_last() =~= lv.take(i as int));
        assert(lv.take(i + 1).last() == tests@[i as int].test@);
        let c = &tests[i].test.category;
        let replace = match &best {
            None => true,
            Some(b) => chars_lt(&chars_of(b.as_str()), &chars_of(c.as_str())),
        };
        if replace {
            best = Some(c.clone());
        }
        i = i + 1;
    }
    assert(lv.take(i as int) =~= lv);
    best
}

/// The indices of the local tests that run, in order.
pub fn tests_to_run(tests: &Vec<FullTest>, category: &Option<String>) -> (res: Vec<usize>)
    ensures
        res@ == Seq::new(tests.len() as nat, |i: int| i).filter(
            |i: int| runs_test(local_view(tests@)[i], opt_string_view(*category), newest_category(local_view(tests@))),
        ).map_values(|i: int| i as usize),
{
    let newest = get_newest_category(tests);
    let ghost lv = local_view(tests@);
    let ghost pred = |i: int| runs_test(lv[i], opt_string_view(*category), newest_category(lv));
    let ghost all = Seq::new(tests.len() as nat, |i: int| i);
    let mut res: Vec<usize> = Vec::new();
    let mut i: usize = 0;
    assert(all.take(0).filter(pred) =~= Seq::<int>::empty()) by {
        reveal(Seq::filter);
    }
    assert(all.take(0).filter(pred).map_values(|i: int| i as usize) =~= res@);
    while i < tests.len()
        invariant
            i <= tests.len(),
            lv == local_view(tests@),
            all == Seq::new(tests.len() as nat, |i: int| i),
            pred == (|i: int| runs_test(lv[i], opt_string_view(*category), newest_category(lv))),
            match newest_category(lv) {
                Some(n) => newest matches Some(x) && x@ == n,
                None => newest is None,
            },
            res@ == all.take(i as int).filter(pred).map_values(|i: int| i as usize),
        decreases tests.len() - i,
    {
        proof {
            lemma_filter_take_step(all, pred, i as int);
        }
        assert(lv[i as int] == tests@[i as int].test@);
        let t = &tests[i].test;
        let keep = match category {
            Some(c) => t.category == *c,
            None => match &newest {
                Some(n) => !t.limited_to_category || t.category == *n,
                None => true,
            },
        };
        let ghost before = res@;
        if keep {
            res.push(i);
            assert(res@ =~= all.take(i + 1).filter(pred).map_values(|i: int| i as usize));
        } else {
            assert(res@ =~= all.take(i + 1).filter(pred).map_values(|i: int| i as usize));
        }
        i = i + 1;
    }
    assert(all.take(i as int) =~= all);
    res
}

/// The view of an optional string.
pub open spec fn opt_string_view(o: Option<String>) -> Option<Seq<char>> {
    match o {
        Some(x) => Some(x@),
        None => None,
    }
}


/// Text for the terminal, built up piece by piece.
#[derive(Debug, Clone)]
pub struct StyledText(pub String);

impl View for StyledText {
    type V = Seq<char>;

    open spec fn view(&self) -> Seq<char> {
        self.0@
    }
}

impl StyledText {
    /// This text followed by `text`.
    pub fn append(self, text: &str) -> (res: Self)
        ensures
            res@ == self@ + text@,
    {
        let mut s = self.0;
        s.append(text);
        StyledText(s)
    }

    /// The text.
    pub fn as_string(&self) -> (res: String)
        ensures
            res@ == self@,
    {
        self.0.clone()
    }
}

/// Text that starts with `start`.
pub fn st(start: &str) -> (res: StyledText)
    ensures
        res@ == start@,
{
    StyledText(String::from_str(start))
}

impl Test {
    /// Where the test's file lives under the test directory `root`:
    /// `<root>/<category>/<id>.crow-test.md`.
    pub fn path(&self, root: &str) -> (res: String)
        ensures
            res@ == crate::storage::join_path(
                crate::storage::join_path(root@, self.category@),
                self.id@ + ".crow-test.md"@,
            ),
    {
        let dir = crate::storage::join_paths(root, self.category.as_str());
        let mut name = self.id.clone();
        name.append(".crow-test.md");
        crate::storage::join_paths(dir.as_str(), name.as_str())
    }

    /// The files that belong to the test under `root`: its test file.
    pub fn local_file_paths(&self, root: &str) -> (res: Vec<String>)
        ensures
            res@.len() == 1,
            res@[0]@ == crate::storage::join_path(
                crate::storage::join_path(root@, self.category@),
                self.id@ + ".crow-test.md"@,
            ),
    {
        let mut v: Vec<String> = Vec::new();
        v.push(self.path(root));
        v
    }
}

/// The arguments of running one local test.
#[derive(Debug, Clone)]
pub struct CliRunTestArgs {
    /// The directory containing all tests.
    pub test_dir: String,
    /// The id of the test to run.
    pub test_id: String,
    /// The run binary of the compiler.
    pub compiler_run: String,
}

/// The arguments of running all local tests.
#[derive(Debug, Clone)]
pub struct CliRunTestsArgs {
    /// The directory containing all tests.
    pub test_dir: String,
    /// The run binary of the compiler.
    pub compiler_run: String,
    /// How many tests run in parallel; 0 for the processor count.
    pub parallelism: usize,
    /// The category of the tests to run; all where unset, but then tests limited to another
    /// category than the newest are left out.
    pub category: Option<String>,
    /// Whether only failing tests are shown.
    pub only_failing: bool,
}

/// The arguments of synchronizing the tests.
#[derive(Debug, Clone)]
pub struct CliSyncTestsArgs {
    /// The directory containing all tests.
    pub test_dir: String,
    /// Whether to commit before and after syncing, where there were changes.
    pub commit_changes: bool,
}

/// The arguments of uploading a test.
#[derive(Debug, Clone)]
pub struct CliUploadTestArgs {
    /// The test file.
    pub test: String,
    pub name: Option<String>,
    pub category: Option<String>,
    pub taste_test: Option<bool>,
    pub infer_metadata_from_input: Option<bool>,
}

/// The category and name to upload a test under, where the arguments give them: inferred from
/// the test file's path (canonical as `canonical`) where asked to, else as given.
pub fn upload_names(args: &CliUploadTestArgs, canonical: &str) -> (res: Result<
    (Option<String>, Option<String>),
    String,
>)
    ensures
        args.infer_metadata_from_input == Some(true) ==> match infer_spec(canonical@) {
            Ok((c, n)) => res matches Ok((Some(rc), Some(rn))) && rc@ == c && rn@ == n,
            Err(m) => res matches Err(e) && e@ == m,
        },
        args.infer_metadata_from_input != Some(true) ==> (res matches Ok((c, n)) && c == args.category && n
            == args.name),
{
    if let Some(true) = args.infer_metadata_from_input {
        match infer_test_metadata_from_path(canonical) {
            Ok((category, name)) => Ok((Some(category), Some(name))),
            Err(e) => Err(e),
        }
    } else {
        Ok((args.category.clone(), args.name.clone()))
    }
}

/// The file name of the test `id`.
pub fn test_file_name(id: &str) -> (res: String)
    ensures
        res@ == id@ + ".crow-test.md"@,
{
    crate::text::concat(id, ".crow-test.md")
}

/// How a line of a unified diff is colored: removed lines, added lines, hunk headers, and the
/// rest.
#[derive(Debug, Clone, Copy, PartialEq, Eq, Structural)]
pub enum DiffTone {
    Removed,
    Added,
    Hunk,
    Context,
}

/// The tone of a diff line, by its first character.
pub open spec fn diff_tone_spec(line: Seq<char>) -> DiffTone {
    if line.len() > 0 && line[0] == '-' {
        DiffTone::Removed
    } else if line.len() > 0 && line[0] == '+' {
        DiffTone::Added
    } else if line.len() > 0 && line[0] == '@' {
        DiffTone::Hunk
    } else {
        DiffTone::Context
    }
}

/// The tone of a diff line.
pub fn diff_line_tone(line: &str) -> (res: DiffTone)
    ensures
        res == diff_tone_spec(line@),
{
    if line.unicode_len() == 0 {
        return DiffTone::Context;
    }
    let c = line.get_char(0);
    if c == '-' {
        DiffTone::Removed
    } else if c == '+' {
        DiffTone::Added
    } else if c == '@' {
        DiffTone::Hunk
    } else {
        DiffTone::Context
    }
}

/// The lines of a diff, each with its tone, to be colored and joined with newlines.
pub fn diff_lines(diff: &str) -> (res: Vec<(DiffTone, String)>)
    ensures
        res@.len() == lines_spec(diff@).len(),
        forall|i: int| 0 <= i < res@.len() ==> (#[trigger] res@[i]).1@ == lines_spec(diff@)[i] && res@[i].0
            == diff_tone_spec(lines_spec(diff@)[i]),
{
    let lines = lines_of(diff);
    let mut res: Vec<(DiffTone, String)> = Vec::new();
    let mut i: usize = 0;
    while i < lines.len()
        invariant
            i <= lines.len(),
            strings_view(lines@) == lines_spec(diff@),
            res@.len() == i,
            forall|k: int| 0 <= k < i ==> (#[trigger] res@[k]).1@ == lines_spec(diff@)[k] && res@[k].0
                == diff_tone_spec(lines_spec(diff@)[k]),
        decreases lines.len() - i,
    {
        assert(strings_view(lines@)[i as int] == lines@[i as int]@);
        let tone = diff_line_tone(lines[i].as_str());
        res.push((tone, lines[i].clone()));
        i = i + 1;
    }
    res
}

/// How one test run ended.
#[derive(Debug, Clone, Copy, PartialEq, Eq, Structural)]
pub enum RunOutcome {
    Passed,
    Failed,
    Errored,
}

/// The tally of a run of tests.
#[derive(Debug, Clone, Copy, PartialEq, Eq, Structural)]
pub struct RunCounts {
    pub successes: usize,
    pub failures: usize,
    pub errors: usize,
}

impl RunCounts {
    /// No test finished yet.
    pub fn new() -> (res: Self)
        ensures
            res.successes == 0 && res.failures == 0 && res.errors == 0,
    {
        RunCounts { successes: 0, failures: 0, errors: 0 }
    }

    /// Counts one finished test.
    pub fn record(&mut self, outcome: RunOutcome)
        requires
            old(self).successes + old(self).failures + old(self).errors < usize::MAX,
        ensures
            final(self).successes == old(self).successes + if outcome == RunOutcome::Passed { 1int } else { 0int },
            final(self).failures == old(self).failures + if outcome == RunOutcome::Failed { 1int } else { 0int },
            final(self).errors == old(self).errors + if outcome == RunOutcome::Errored { 1int } else { 0int },
    {
        match outcome {
            RunOutcome::Passed => self.successes = self.successes + 1,
            RunOutcome::Failed => self.failures = self.failures + 1,
            RunOutcome::Errored => self.errors = self.errors + 1,
        }
    }

    /// How many tests have finished.
    pub fn completed(&self) -> (res: usize)
        requires
            self.successes + self.failures + self.errors <= usize::MAX,
        ensures
            res == self.successes + self.failures + self.errors,
    {
        self.successes + self.failures + self.errors
    }

    /// Whether the run succeeded: no test failed and none errored.
    pub fn all_passed(&self) -> (res: bool)
        ensures
            res == (self.failures == 0 && self.errors == 0),
    {
        self.failures == 0 && self.errors == 0
    }
}

/// Whether a finished test is printed: always, unless only failing tests are shown and it
/// passed.
pub fn should_print_test(only_failing: bool, outcome: RunOutcome) -> (res: bool)
    ensures
        res == !(only_failing && outcome == RunOutcome::Passed),
{
    !(only_failing && outcome == RunOutcome::Passed)
}

/// The width of the separator line between test outputs.
pub const SEPARATOR_WIDTH: usize = 80;

/// The widths of the rules left and right of a test id in the separator line: what remains of
/// the line beside the id and two spaces, halved, the right half rounded up.
pub fn separator_padding(id_len: usize) -> (res: (usize, usize))
    requires
        id_len + 2 <= SEPARATOR_WIDTH,
    ensures
        res.0 == (SEPARATOR_WIDTH - id_len - 2) / 2,
        res.1 == (SEPARATOR_WIDTH - id_len - 2 + 1) / 2,
        res.0 + res.1 + id_len + 2 == SEPARATOR_WIDTH,
{
    let remaining = SEPARATOR_WIDTH - id_len - 2;
    (remaining / 2, (remaining + 1) / 2)
}

/// The ids of the tests of `category` that `team` wrote, which it may update.
pub fn updatable_tests(remote: &Vec<Test>, category: &str, team: &str) -> (res: Vec<String>)
    ensures
        res@.map_values(|s: String| s@) == tests_view(remote@).filter(
            |t: TestView| t.category == category@ && t.creator_id == team@,
        ).map_values(|t: TestView| t.id),
{
    let ghost rv = tests_view(remote@);
    let ghost pred = |t: TestView| t.category == category@ && t.creator_id == team@;
    let mut res: Vec<String> = Vec::new();
    let mut i: usize = 0;
    assert(rv.take(0).filter(pred) =~= Seq::<TestView>::empty()) by {
        reveal(Seq::filter);
    }
    assert(res@.map_values(|s: String| s@) =~= rv.take(0).filter(pred).map_values(|t: TestView| t.id));
    while i < remote.len()
        invariant
            i <= remote.len(),
            rv == tests_view(remote@),
            pred == (|t: TestView| t.category == category@ && t.creator_id == team@),
            res@.map_values(|s: String| s@) == rv.take(i as int).filter(pred).map_values(|t: TestView| t.id),
        decreases remote.len() - i,
    {
        proof {
            lemma_filter_take_step(rv, pred, i as int);
        }
        assert(rv[i as int] == remote@[i as int]@);
        let ghost before = res@.map_values(|s: String| s@);
        if same_text(remote[i].category.as_str(), category) && same_text(remote[i].creator_id.as_str(), team) {
            res.push(remote[i].id.clone());
            assert(res@.map_values(|s: String| s@) =~= before.push(rv[i as int].id));
            assert(res@.map_values(|s: String| s@) =~= rv.take(i + 1).filter(pred).map_values(|t: TestView| t.id));
        } else {
            assert(res@.map_values(|s: String| s@) =~= rv.take(i + 1).filter(pred).map_values(|t: TestView| t.id));
        }
        i = i + 1;
    }
    assert(rv.take(i as int) =~= rv);
    res
}

/// A test category as the backend lists it, with its dates in milliseconds since the epoch.
#[derive(Debug, Clone)]
pub struct TestCategory {
    pub starts_at: i64,
    pub labs_end_at: i64,
    pub tests_end_at: i64,
}

/// Whether tests can be uploaded to a category at `now`: it has started and its labs have not
/// ended.
pub fn category_open(category: &TestCategory, now: i64) -> (res: bool)
    ensures
        res == (category.starts_at < now && category.labs_end_at > now),
{
    category.starts_at < now && category.labs_end_at > now
}

} // verus!

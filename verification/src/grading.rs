//! Grading: how tests count per category, the variables a grading formula sees, how a formula
//! is written out, and how an admin's statistics classify a team's tests.
use vstd::prelude::*;
use crate::catalog::Test;
use crate::execution::{
    CountWithProvisional, ExecutionExitStatus, FinishedCompilerTaskStatistics, FinishedCompilerTaskSummary,
    FinishedTestSummary,
};
use crate::ids::{TaskId, TeamId, TestId};
use crate::modifiers::{ModifierView, TestModifier, modifiers_view};
use crate::text::{chars_of, concat, concat3, ascii_lower, lowercase_text, string_of, to_lowercase};

verus! {

/// How many tests of a category ran and how many passed.
#[derive(Debug, Clone, Copy, PartialEq, Eq, Structural)]
pub struct CategoryInfo {
    pub passed_tests: usize,
    pub total_tests: usize,
}

impl CategoryInfo {
    /// Nothing counted yet.
    pub fn new() -> (res: Self)
        ensures
            res.passed_tests == 0 && res.total_tests == 0,
    {
        CategoryInfo { passed_tests: 0, total_tests: 0 }
    }

    /// Counts one more test, and one more passed test where it succeeded.
    pub fn update(&mut self, test: &FinishedTestSummary)
        requires
            old(self).total_tests < usize::MAX,
            old(self).passed_tests <= old(self).total_tests,
        ensures
            final(self).total_tests == old(self).total_tests + 1,
            final(self).passed_tests == old(self).passed_tests + if test.output == ExecutionExitStatus::Success {
                1int
            } else {
                0int
            },
            final(self).passed_tests <= final(self).total_tests,
    {
        self.total_tests = self.total_tests + 1;
        if test.output == ExecutionExitStatus::Success {
            self.passed_tests = self.passed_tests + 1;
        }
    }
}

/// Whether a test counts towards the grade of its category: it has a category, and it is not
/// provisional for that same category.
pub open spec fn counts_for_grading(t: FinishedTestSummary) -> bool {
    match t.category {
        None => false,
        Some(c) => match t.provisional_for_category {
            Some(p) => p@ != c@,
            None => true,
        },
    }
}

/// How many of the first `n` tests count for category `c`, and how many of those passed.
pub open spec fn category_counts(tests: Seq<FinishedTestSummary>, c: Seq<char>, n: int) -> (nat, nat)
    decreases n,
{
    if n <= 0 {
        (0, 0)
    } else {
        let prev = category_counts(tests, c, n - 1);
        let t = tests[n - 1];
        if counts_for_grading(t) && t.category->0@ == c {
            (prev.0 + 1, prev.1 + if t.output == ExecutionExitStatus::Success { 1nat } else { 0nat })
        } else {
            prev
        }
    }
}

/// Whether `infos` holds each category that a counting test has once, with its counts.
pub open spec fn infos_of(infos: Seq<(String, CategoryInfo)>, tests: Seq<FinishedTestSummary>, n: int) -> bool {
    &&& forall|i: int, j: int| 0 <= i < j < infos.len() ==> (#[trigger] infos[i]).0@ != (#[trigger] infos[j]).0@
    &&& forall|i: int| 0 <= i < infos.len() ==> {
        let cc = category_counts(tests, (#[trigger] infos[i]).0@, n);
        infos[i].1.total_tests == cc.0 && infos[i].1.passed_tests == cc.1 && cc.0 > 0
    }
    &&& forall|k: int| 0 <= k < n && #[trigger] counts_for_grading(tests[k]) ==> exists|i: int|
        0 <= i < infos.len() && infos[i].0@ == tests[k].category->0@
}

proof fn lemma_counts_unrelated(tests: Seq<FinishedTestSummary>, c: Seq<char>, n: int)
    requires
        0 <= n < tests.len(),
        !(counts_for_grading(tests[n]) && tests[n].category->0@ == c),
    ensures
        category_counts(tests, c, n + 1) == category_counts(tests, c, n),
{
}

proof fn lemma_counts_bound(tests: Seq<FinishedTestSummary>, c: Seq<char>, n: int)
    requires
        0 <= n,
    ensures
        category_counts(tests, c, n).1 <= category_counts(tests, c, n).0 <= n,
    decreases n,
{
    if n > 0 {
        lemma_counts_bound(tests, c, n - 1);
    }
}

/// The categories of the tests that count for grading, each with how many of its tests ran
/// and passed, in the order in which they first appear.
pub fn category_infos(tests: &Vec<FinishedTestSummary>) -> (res: Vec<(String, CategoryInfo)>)
    requires
        tests.len() < usize::MAX,
    ensures
        infos_of(res@, tests@, tests.len() as int),
{
    let mut infos: Vec<(String, CategoryInfo)> = Vec::new();
    let mut k: usize = 0;
    while k < tests.len()
        invariant
            k <= tests.len() < usize::MAX,
            infos_of(infos@, tests@, k as int),
        decreases tests.len() - k,
    {
        let t = &tests[k];
        let counted = match &t.category {
            None => false,
            Some(c) => match &t.provisional_for_category {
                Some(p) => *p != *c,
                None => true,
            },
        };
        if counted {
            let c = t.category.as_ref().unwrap();
            assert(tests@[k as int].category->0@ == c@);
            let found = find_category(&infos, c);
            let ghost old_infos = infos@;
            match found {
                Some(i) => {
                    proof {
                        lemma_counts_bound(tests@, c@, k as int);
                    }
                    let mut info = infos[i].1;
                    info.update(t);
                    infos.set(i, (infos[i].0.clone(), info));
                    assert forall|j: int| 0 <= j < infos@.len() implies {
                        let cc = category_counts(tests@, (#[trigger] infos@[j]).0@, k + 1);
                        infos@[j].1.total_tests == cc.0 && infos@[j].1.passed_tests == cc.1 && cc.0 > 0
                    } by {
                        if j != i {
                            assert(infos@[j] == old_infos[j]);
                            lemma_counts_unrelated(tests@, infos@[j].0@, k as int);
                        }
                    }
                    assert forall|q: int| 0 <= q < k + 1 && #[trigger] counts_for_grading(tests@[q]) implies exists|j: int|
                        0 <= j < infos@.len() && infos@[j].0@ == tests@[q].category->0@ by {
                        if q < k {
                            let j = choose|j: int| 0 <= j < old_infos.len() && old_infos[j].0@ == tests@[q].category->0@;
                            assert(infos@[j].0@ == old_infos[j].0@);
                        } else {
                            assert(infos@[i as int].0@ == c@);
                        }
                    }
                },
                None => {
                    let mut info = CategoryInfo::new();
                    info.update(t);
                    infos.push((c.clone(), info));
                    assert forall|j: int| 0 <= j < infos@.len() implies {
                        let cc = category_counts(tests@, (#[trigger] infos@[j]).0@, k + 1);
                        infos@[j].1.total_tests == cc.0 && infos@[j].1.passed_tests == cc.1 && cc.0 > 0
                    } by {
                        if j < old_infos.len() {
                            assert(infos@[j] == old_infos[j]);
                            lemma_counts_unrelated(tests@, infos@[j].0@, k as int);
                        } else {
                            assert(category_counts(tests@, c@, k as int) == (0nat, 0nat)) by {
                                assert forall|q: int| 0 <= q < k && #[trigger] counts_for_grading(tests@[q]) implies tests@[q].category->0@
                                    != c@ by {
                                    let j = choose|j: int| 0 <= j < old_infos.len() && old_infos[j].0@ == tests@[q].category->0@;
                                    assert(old_infos[j].0@ != c@);
                                }
                                lemma_no_counts(tests@, c@, k as int);
                            }
                        }
                    }
                    assert forall|q: int| 0 <= q < k + 1 && #[trigger] counts_for_grading(tests@[q]) implies exists|j: int|
                        0 <= j < infos@.len() && infos@[j].0@ == tests@[q].category->0@ by {
                        if q < k {
                            let j = choose|j: int| 0 <= j < old_infos.len() && old_infos[j].0@ == tests@[q].category->0@;
                            assert(infos@[j].0@ == old_infos[j].0@);
                        } else {
                            assert(infos@[old_infos.len() as int].0@ == c@);
                        }
                    }
                },
            }
        } else {
            assert forall|j: int| 0 <= j < infos@.len() implies {
                let cc = category_counts(tests@, (#[trigger] infos@[j]).0@, k + 1);
                infos@[j].1.total_tests == cc.0 && infos@[j].1.passed_tests == cc.1 && cc.0 > 0
            } by {
                lemma_counts_unrelated(tests@, infos@[j].0@, k as int);
            }
        }
        k = k + 1;
    }
    infos
}

fn find_category(infos: &Vec<(String, CategoryInfo)>, c: &String) -> (res: Option<usize>)
    ensures
        match res {
            Some(i) => i < infos.len() && infos@[i as int].0@ == c@,
            None => forall|j: int| 0 <= j < infos.len() ==> infos@[j].0@ != c@,
        },
{
    let mut i: usize = 0;
    while i < infos.len()
        invariant
            i <= infos.len(),
            forall|j: int| 0 <= j < i ==> infos@[j].0@ != c@,
        decreases infos.len() - i,
    {
        if infos[i].0 == *c {
            return Some(i);
        }
        i = i + 1;
    }
    None
}

proof fn lemma_no_counts(tests: Seq<FinishedTestSummary>, c: Seq<char>, n: int)
    requires
        0 <= n <= tests.len(),
        forall|q: int| 0 <= q < n && #[trigger] counts_for_grading(tests[q]) ==> tests[q].category->0@ != c,
    ensures
        category_counts(tests, c, n) == (0nat, 0nat),
    decreases n,
{
    if n > 0 {
        lemma_no_counts(tests, c, n - 1);
    }
}

} // verus!

verus! {

/// Whether `c` is alphabetic or numeric in Unicode, as `char::is_alphanumeric` decides.
pub uninterp spec fn alphanumeric(c: char) -> bool;

/// Asks `char::is_alphanumeric`, which follows Unicode's Alphabetic and Numeric properties.
/// The contract claims that the answer is a function of the character, and, for an ASCII
/// character, that exactly the letters and digits are alphanumeric; it leaves the other
/// characters unsaid.
#[verifier::external_body]
fn is_alphanumeric(c: char) -> (res: bool)
    ensures
        res == alphanumeric(c),
        (c as u32) < 128 ==> (res <==> (('a' <= c && c <= 'z') || ('A' <= c && c <= 'Z') || ('0' <= c && c
            <= '9'))),
{
    c.is_alphanumeric()
}

/// A character as it goes into a slug: kept where it is alphanumeric, `-` or `_`, else `_`.
pub open spec fn slug_char(c: char) -> char {
    if alphanumeric(c) || c == '-' || c == '_' {
        c
    } else {
        '_'
    }
}

/// `s` without leading `c`s.
pub open spec fn trim_start_char(s: Seq<char>, c: char) -> Seq<char>
    decreases s.len(),
{
    if s.len() > 0 && s[0] == c {
        trim_start_char(s.drop_first(), c)
    } else {
        s
    }
}

/// `s` without trailing `c`s.
pub open spec fn trim_end_char(s: Seq<char>, c: char) -> Seq<char>
    decreases s.len(),
{
    if s.len() > 0 && s.last() == c {
        trim_end_char(s.drop_last(), c)
    } else {
        s
    }
}

proof fn lemma_trim_start_shape(s: Seq<char>, c: char) -> (k: int)
    ensures
        0 <= k <= s.len(),
        trim_start_char(s, c) == s.skip(k),
        trim_start_char(s, c).len() > 0 ==> trim_start_char(s, c)[0] != c,
    decreases s.len(),
{
    if s.len() > 0 && s[0] == c {
        let k = lemma_trim_start_shape(s.drop_first(), c);
        assert(s.drop_first().skip(k) =~= s.skip(k + 1));
        k + 1
    } else {
        assert(s.skip(0) =~= s);
        0
    }
}

proof fn lemma_trim_end_shape(s: Seq<char>, c: char) -> (k: int)
    ensures
        0 <= k <= s.len(),
        trim_end_char(s, c) == s.take(k),
        trim_end_char(s, c).len() > 0 ==> trim_end_char(s, c).last() != c,
    decreases s.len(),
{
    if s.len() > 0 && s.last() == c {
        let k = lemma_trim_end_shape(s.drop_last(), c);
        assert(s.drop_last().take(k) =~= s.take(k));
        k
    } else {
        assert(s.take(s.len() as int) =~= s);
        s.len() as int
    }
}

/// A slug holds only alphanumeric characters, `-` and `_`, and neither starts nor ends with `_`.
pub proof fn lemma_slug_shape(name: Seq<char>)
    ensures
        forall|i: int| 0 <= i < slug_spec(name).len() ==> {
            let c = #[trigger] slug_spec(name)[i];
            alphanumeric(c) || c == '-' || c == '_'
        },
        slug_spec(name).len() > 0 ==> slug_spec(name)[0] != '_' && slug_spec(name).last() != '_',
{
    let m = lowercase_text(name).map_values(|c: char| slug_char(c));
    let a = lemma_trim_start_shape(m, '_');
    let t = trim_start_char(m, '_');
    let b = lemma_trim_end_shape(t, '_');
    let r = slug_spec(name);
    assert(r == t.take(b));
    assert forall|i: int| 0 <= i < r.len() implies {
        let c = #[trigger] r[i];
        alphanumeric(c) || c == '-' || c == '_'
    } by {
        assert(r[i] == t[i]);
        assert(t[i] == m[i + a]);
    }
    if r.len() > 0 {
        assert(r[0] == t[0]);
    }
}

/// The slug of a category name: lower case, every other character than letters, digits, `-`
/// and `_` made `_`, and no `_` at either end.
pub open spec fn slug_spec(name: Seq<char>) -> Seq<char> {
    trim_end_char(trim_start_char(lowercase_text(name).map_values(|c: char| slug_char(c)), '_'), '_')
}

proof fn lemma_trim_start_char(s: Seq<char>, c: char, i: int)
    requires
        0 <= i <= s.len(),
        forall|j: int| 0 <= j < i ==> s[j] == c,
    ensures
        trim_start_char(s, c) == trim_start_char(s.skip(i), c),
    decreases i,
{
    if i > 0 {
        lemma_trim_start_char(s.drop_first(), c, i - 1);
        assert(s.drop_first().skip(i - 1) =~= s.skip(i));
    } else {
        assert(s.skip(0) =~= s);
    }
}

proof fn lemma_trim_end_char(s: Seq<char>, c: char, i: int)
    requires
        0 <= i <= s.len(),
        forall|j: int| i <= j < s.len() ==> s[j] == c,
    ensures
        trim_end_char(s, c) == trim_end_char(s.take(i), c),
    decreases s.len() - i,
{
    if i < s.len() {
        lemma_trim_end_char(s.drop_last(), c, i);
        assert(s.drop_last().take(i) =~= s.take(i));
    } else {
        assert(s.take(i) =~= s);
    }
}

/// Whether every character of `s` is ASCII.
pub open spec fn is_ascii_text(s: Seq<char>) -> bool {
    forall|i: int| 0 <= i < s.len() ==> (#[trigger] s[i] as u32) < 128
}

/// An ASCII character as it goes into a slug: kept where it is a letter, a digit, `-` or `_`,
/// else `_`.
pub open spec fn ascii_slug_char(c: char) -> char {
    if ('a' <= c && c <= 'z') || ('A' <= c && c <= 'Z') || ('0' <= c && c <= '9') || c == '-' || c == '_' {
        c
    } else {
        '_'
    }
}

/// The slug of an ASCII category name: lower case, every other character than letters,
/// digits, `-` and `_` made `_`, and no `_` at either end.
pub open spec fn ascii_slug(name: Seq<char>) -> Seq<char> {
    trim_end_char(trim_start_char(name.map_values(|c: char| ascii_slug_char(ascii_lower(c))), '_'), '_')
}

proof fn lemma_ascii_lower_ascii(c: char)
    requires
        (c as u32) < 128,
    ensures
        (ascii_lower(c) as u32) < 128,
        ascii_lower(ascii_lower(c)) == ascii_lower(c),
        !('A' <= ascii_lower(c) && ascii_lower(c) <= 'Z'),
{
}

/// Slugs of ASCII names are fixed points: a slug is ASCII, and slugging it again gives it back.
pub proof fn lemma_ascii_slug_idempotent(name: Seq<char>)
    requires
        is_ascii_text(name),
    ensures
        is_ascii_text(ascii_slug(name)),
        ascii_slug(ascii_slug(name)) == ascii_slug(name),
{
    let m = name.map_values(|c: char| ascii_slug_char(ascii_lower(c)));
    let a = lemma_trim_start_shape(m, '_');
    let t = trim_start_char(m, '_');
    let b = lemma_trim_end_shape(t, '_');
    let r = ascii_slug(name);
    assert(r == t.take(b));
    assert forall|i: int| 0 <= i < r.len() implies {
        let c = #[trigger] r[i];
        &&& (c as u32) < 128
        &&& ascii_slug_char(ascii_lower(c)) == c
    } by {
        assert(r[i] == t[i]);
        assert(t[i] == m[i + a]);
        lemma_ascii_lower_ascii(name[i + a]);
    }
    let m2 = r.map_values(|c: char| ascii_slug_char(ascii_lower(c)));
    assert(m2 =~= r);
    if r.len() > 0 {
        assert(r[0] == t[0]);
    }
    assert(trim_start_char(r, '_') == r);
    assert(trim_end_char(r, '_') == r);
}

/// The slug of a category name, under which a grading formula sees the category.
pub fn slugify(name: &str) -> (res: String)
    ensures
        res@ == slug_spec(name@),
        is_ascii_text(name@) ==> res@ == ascii_slug(name@),
{
    let lower = to_lowercase(name);
    let v = chars_of(lower.as_str());
    let mut mapped: Vec<char> = Vec::new();
    let mut k: usize = 0;
    while k < v.len()
        invariant
            k <= v.len(),
            v@ == lowercase_text(name@),
            is_ascii_text(name@) ==> v@ == name@.map_values(|c: char| ascii_lower(c)),
            mapped@ == v@.take(k as int).map_values(|c: char| slug_char(c)),
            is_ascii_text(name@) ==> mapped@ == name@.take(k as int).map_values(
                |c: char| ascii_slug_char(ascii_lower(c)),
            ),
        decreases v.len() - k,
    {
        let c = v[k];
        let m = if is_alphanumeric(c) || c == '-' || c == '_' { c } else { '_' };
        proof {
            if is_ascii_text(name@) {
                let n = name@[k as int];
                assert((n as u32) < 128);
                assert(c == ascii_lower(n));
                lemma_ascii_lower_ascii(n);
                assert(m == ascii_slug_char(ascii_lower(n)));
            }
        }
        mapped.push(m);
        assert(mapped@ =~= v@.take(k + 1).map_values(|c: char| slug_char(c)));
        proof {
            if is_ascii_text(name@) {
                assert(mapped@ =~= name@.take(k + 1).map_values(|c: char| ascii_slug_char(ascii_lower(c))));
            }
        }
        k = k + 1;
    }
    assert(v@.take(v.len() as int) =~= v@);
    proof {
        if is_ascii_text(name@) {
            assert(name@.take(v.len() as int) =~= name@);
        }
    }
    let ghost m = mapped@;
    let mut i: usize = 0;
    while i < mapped.len() && mapped[i] == '_'
        invariant
            i <= mapped.len(),
            forall|j: int| 0 <= j < i ==> mapped@[j] == '_',
        decreases mapped.len() - i,
    {
        i = i + 1;
    }
    proof {
        lemma_trim_start_char(m, '_', i as int);
    }
    let mut j: usize = mapped.len();
    while j > i && mapped[j - 1] == '_'
        invariant
            i <= j <= mapped.len(),
            forall|q: int| j <= q < mapped.len() ==> mapped@[q] == '_',
        decreases j,
    {
        j = j - 1;
    }
    let ghost t = m.skip(i as int);
    proof {
        assert(trim_start_char(t, '_') == t);
        lemma_trim_end_char(t, '_', j - i);
        assert(t.take(j - i) =~= m.subrange(i as int, j as int));
    }
    string_of(&mapped.as_slice()[i..j])
}

/// The names of the two variables under which a grading formula sees a category: the passed
/// and the total number of its tests.
pub fn grading_variable_names(category: &str) -> (res: (String, String))
    ensures
        res.0@ == "passed_"@ + slug_spec(category@),
        res.1@ == "total_"@ + slug_spec(category@),
{
    let slug = slugify(category);
    (concat("passed_", slug.as_str()), concat("total_", slug.as_str()))
}

/// The variables that a grading formula sees: for each category, its passed and its total
/// number of tests, under their names.
pub fn grading_variables(infos: &Vec<(String, CategoryInfo)>) -> (res: Vec<(String, usize)>)
    ensures
        res.len() == 2 * infos.len(),
        forall|i: int| 0 <= i < infos.len() ==> {
            &&& (#[trigger] res@[2 * i]).0@ == "passed_"@ + slug_spec(infos@[i].0@)
            &&& res@[2 * i].1 == infos@[i].1.passed_tests
            &&& res@[2 * i + 1].0@ == "total_"@ + slug_spec(infos@[i].0@)
            &&& res@[2 * i + 1].1 == infos@[i].1.total_tests
        },
{
    let mut res: Vec<(String, usize)> = Vec::new();
    let mut i: usize = 0;
    while i < infos.len()
        invariant
            i <= infos.len(),
            res.len() == 2 * i,
            forall|q: int| 0 <= q < i ==> {
                &&& (#[trigger] res@[2 * q]).0@ == "passed_"@ + slug_spec(infos@[q].0@)
                &&& res@[2 * q].1 == infos@[q].1.passed_tests
                &&& res@[2 * q + 1].0@ == "total_"@ + slug_spec(infos@[q].0@)
                &&& res@[2 * q + 1].1 == infos@[q].1.total_tests
            },
        decreases infos.len() - i,
    {
        let (passed, total) = grading_variable_names(infos[i].0.as_str());
        res.push((passed, infos[i].1.passed_tests));
        res.push((total, infos[i].1.total_tests));
        assert forall|q: int| 0 <= q < i + 1 implies {
            &&& (#[trigger] res@[2 * q]).0@ == "passed_"@ + slug_spec(infos@[q].0@)
            &&& res@[2 * q].1 == infos@[q].1.passed_tests
            &&& res@[2 * q + 1].0@ == "total_"@ + slug_spec(infos@[q].0@)
            &&& res@[2 * q + 1].1 == infos@[q].1.total_tests
        } by {
            if q == i {
                assert(res@[2 * q] == res@[2 * i]);
            }
        }
        i = i + 1;
    }
    res
}

} // verus!

verus! {

/// The kind of behaviour a test checks, as the admin statistics classify it.
#[derive(Debug, Clone, Copy, PartialEq, Eq, Structural)]
pub enum TestClass {
    RuntimeError,
    CompileError,
    ExitCode,
    NonTermination,
    CompilerSucceedNoExec,
    Unclassified,
}

/// Whether some modifier satisfies `p`.
pub open spec fn any_modifier(ms: Seq<ModifierView>, p: spec_fn(ModifierView) -> bool) -> bool {
    exists|i: int| 0 <= i < ms.len() && p(#[trigger] ms[i])
}

/// The class of a test: a crash expected of the binary makes it a runtime-error test, then a
/// compiler failure a compile-error test, then an exit code or success of the binary an
/// exit-code test, then a timeout a non-termination test, then a compiler success with no
/// binary run a compile-only test; the rest are unclassified.
pub open spec fn classify_spec(cm: Seq<ModifierView>, bm: Seq<ModifierView>) -> TestClass {
    if any_modifier(bm, |m: ModifierView| m is ShouldCrash) {
        TestClass::RuntimeError
    } else if any_modifier(cm, |m: ModifierView| m is ShouldFail) {
        TestClass::CompileError
    } else if any_modifier(bm, |m: ModifierView| m is ExitCode || m is ShouldSucceed) {
        TestClass::ExitCode
    } else if any_modifier(bm, |m: ModifierView| m is ShouldTimeout) {
        TestClass::NonTermination
    } else if any_modifier(cm, |m: ModifierView| m is ShouldSucceed) && bm.len() == 0 {
        TestClass::CompilerSucceedNoExec
    } else {
        TestClass::Unclassified
    }
}

/// A test is classified by the expectations it holds: a runtime-error test exactly when its
/// binary is expected to crash; otherwise a compile-error test exactly when its compiler is
/// expected to fail; otherwise an exit-code test exactly when its binary is expected to exit
/// with a code or to succeed; otherwise a non-termination test exactly when its binary is
/// expected to time out; otherwise a compile-only test exactly when its compiler is expected to
/// succeed and the binary has no expectations; and unclassified in every other case.
pub proof fn lemma_classify_by_expectations(cm: Seq<ModifierView>, bm: Seq<ModifierView>)
    ensures
        ({
            let crash = exists|i: int| 0 <= i < bm.len() && bm[i] is ShouldCrash;
            let fail = exists|i: int| 0 <= i < cm.len() && cm[i] is ShouldFail;
            let exit = exists|i: int| 0 <= i < bm.len() && (bm[i] is ExitCode || bm[i] is ShouldSucceed);
            let timeout = exists|i: int| 0 <= i < bm.len() && bm[i] is ShouldTimeout;
            let compiles = (exists|i: int| 0 <= i < cm.len() && cm[i] is ShouldSucceed) && bm.len() == 0;
            &&& classify_spec(cm, bm) == TestClass::RuntimeError <==> crash
            &&& classify_spec(cm, bm) == TestClass::CompileError <==> !crash && fail
            &&& classify_spec(cm, bm) == TestClass::ExitCode <==> !crash && !fail && exit
            &&& classify_spec(cm, bm) == TestClass::NonTermination <==> !crash && !fail && !exit && timeout
            &&& classify_spec(cm, bm) == TestClass::CompilerSucceedNoExec <==> !crash && !fail && !exit && !timeout
                && compiles
            &&& classify_spec(cm, bm) == TestClass::Unclassified <==> !crash && !fail && !exit && !timeout && !compiles
        }),
{
    let crash = exists|i: int| 0 <= i < bm.len() && bm[i] is ShouldCrash;
    let fail = exists|i: int| 0 <= i < cm.len() && cm[i] is ShouldFail;
    let exit = exists|i: int| 0 <= i < bm.len() && (bm[i] is ExitCode || bm[i] is ShouldSucceed);
    let timeout = exists|i: int| 0 <= i < bm.len() && bm[i] is ShouldTimeout;
    let csucc = exists|i: int| 0 <= i < cm.len() && cm[i] is ShouldSucceed;
    assert(any_modifier(bm, |m: ModifierView| m is ShouldCrash) == crash) by {
        if crash {
            let i = choose|i: int| 0 <= i < bm.len() && bm[i] is ShouldCrash;
            assert((|m: ModifierView| m is ShouldCrash)(bm[i]));
        }
    }
    assert(any_modifier(cm, |m: ModifierView| m is ShouldFail) == fail) by {
        if fail {
            let i = choose|i: int| 0 <= i < cm.len() && cm[i] is ShouldFail;
            assert((|m: ModifierView| m is ShouldFail)(cm[i]));
        }
    }
    assert(any_modifier(bm, |m: ModifierView| m is ExitCode || m is ShouldSucceed) == exit) by {
        if exit {
            let i = choose|i: int| 0 <= i < bm.len() && (bm[i] is ExitCode || bm[i] is ShouldSucceed);
            assert((|m: ModifierView| m is ExitCode || m is ShouldSucceed)(bm[i]));
        }
    }
    assert(any_modifier(bm, |m: ModifierView| m is ShouldTimeout) == timeout) by {
        if timeout {
            let i = choose|i: int| 0 <= i < bm.len() && bm[i] is ShouldTimeout;
            assert((|m: ModifierView| m is ShouldTimeout)(bm[i]));
        }
    }
    assert(any_modifier(cm, |m: ModifierView| m is ShouldSucceed) == csucc) by {
        if csucc {
            let i = choose|i: int| 0 <= i < cm.len() && cm[i] is ShouldSucceed;
            assert((|m: ModifierView| m is ShouldSucceed)(cm[i]));
        }
    }
}

fn any_crash(ms: &Vec<TestModifier>) -> (res: bool)
    ensures
        res == any_modifier(modifiers_view(ms@), |m: ModifierView| m is ShouldCrash),
{
    let mut i: usize = 0;
    while i < ms.len()
        invariant
            i <= ms.len(),
            forall|j: int| 0 <= j < i ==> !(ms@[j]@ is ShouldCrash),
        decreases ms.len() - i,
    {
        if let TestModifier::ShouldCrash { .. } = &ms[i] {
            assert(modifiers_view(ms@)[i as int] is ShouldCrash);
            return true;
        }
        i = i + 1;
    }
    assert forall|j: int| 0 <= j < modifiers_view(ms@).len() implies !(#[trigger] modifiers_view(ms@)[j] is ShouldCrash) by {
        assert(modifiers_view(ms@)[j] == ms@[j]@);
    }
    false
}

fn any_fail(ms: &Vec<TestModifier>) -> (res: bool)
    ensures
        res == any_modifier(modifiers_view(ms@), |m: ModifierView| m is ShouldFail),
{
    let mut i: usize = 0;
    while i < ms.len()
        invariant
            i <= ms.len(),
            forall|j: int| 0 <= j < i ==> !(ms@[j]@ is ShouldFail),
        decreases ms.len() - i,
    {
        if let TestModifier::ShouldFail { .. } = &ms[i] {
            assert(modifiers_view(ms@)[i as int] is ShouldFail);
            return true;
        }
        i = i + 1;
    }
    assert forall|j: int| 0 <= j < modifiers_view(ms@).len() implies !(#[trigger] modifiers_view(ms@)[j] is ShouldFail) by {
        assert(modifiers_view(ms@)[j] == ms@[j]@);
    }
    false
}

fn any_exit_expectation(ms: &Vec<TestModifier>) -> (res: bool)
    ensures
        res == any_modifier(modifiers_view(ms@), |m: ModifierView| m is ExitCode || m is ShouldSucceed),
{
    let mut i: usize = 0;
    while i < ms.len()
        invariant
            i <= ms.len(),
            forall|j: int| 0 <= j < i ==> !(ms@[j]@ is ExitCode || ms@[j]@ is ShouldSucceed),
        decreases ms.len() - i,
    {
        match &ms[i] {
            TestModifier::ExitCode { .. } | TestModifier::ShouldSucceed => {
                assert(modifiers_view(ms@)[i as int] is ExitCode || modifiers_view(ms@)[i as int] is ShouldSucceed);
                return true;
            },
            _ => {},
        }
        i = i + 1;
    }
    assert forall|j: int| 0 <= j < modifiers_view(ms@).len() implies !(#[trigger] modifiers_view(ms@)[j] is ExitCode
        || modifiers_view(ms@)[j] is ShouldSucceed) by {
        assert(modifiers_view(ms@)[j] == ms@[j]@);
    }
    false
}

fn any_timeout(ms: &Vec<TestModifier>) -> (res: bool)
    ensures
        res == any_modifier(modifiers_view(ms@), |m: ModifierView| m is ShouldTimeout),
{
    let mut i: usize = 0;
    while i < ms.len()
        invariant
            i <= ms.len(),
            forall|j: int| 0 <= j < i ==> !(ms@[j]@ is ShouldTimeout),
        decreases ms.len() - i,
    {
        if let TestModifier::ShouldTimeout = &ms[i] {
            assert(modifiers_view(ms@)[i as int] is ShouldTimeout);
            return true;
        }
        i = i + 1;
    }
    assert forall|j: int| 0 <= j < modifiers_view(ms@).len() implies !(#[trigger] modifiers_view(ms@)[j] is ShouldTimeout) by {
        assert(modifiers_view(ms@)[j] == ms@[j]@);
    }
    false
}

fn any_succeed(ms: &Vec<TestModifier>) -> (res: bool)
    ensures
        res == any_modifier(modifiers_view(ms@), |m: ModifierView| m is ShouldSucceed),
{
    let mut i: usize = 0;
    while i < ms.len()
        invariant
            i <= ms.len(),
            forall|j: int| 0 <= j < i ==> !(ms@[j]@ is ShouldSucceed),
        decreases ms.len() - i,
    {
        if let TestModifier::ShouldSucceed = &ms[i] {
            assert(modifiers_view(ms@)[i as int] is ShouldSucceed);
            return true;
        }
        i = i + 1;
    }
    assert forall|j: int| 0 <= j < modifiers_view(ms@).len() implies !(#[trigger] modifiers_view(ms@)[j] is ShouldSucceed) by {
        assert(modifiers_view(ms@)[j] == ms@[j]@);
    }
    false
}

/// The class of a test.
pub fn classify_test(test: &Test) -> (res: TestClass)
    ensures
        res == classify_spec(modifiers_view(test.compiler_modifiers@), modifiers_view(test.binary_modifiers@)),
{
    if any_crash(&test.binary_modifiers) {
        TestClass::RuntimeError
    } else if any_fail(&test.compiler_modifiers) {
        TestClass::CompileError
    } else if any_exit_expectation(&test.binary_modifiers) {
        TestClass::ExitCode
    } else if any_timeout(&test.binary_modifiers) {
        TestClass::NonTermination
    } else if any_succeed(&test.compiler_modifiers) && test.binary_modifiers.len() == 0 {
        TestClass::CompilerSucceedNoExec
    } else {
        TestClass::Unclassified
    }
}

/// How many tests of a category fall into each class, and the ids of those that fall in none.
#[derive(Debug, Clone)]
pub struct TestClassification {
    pub runtime_error: usize,
    pub compile_errors: usize,
    pub exit_code: usize,
    pub non_termination: usize,
    pub compiler_succeed_no_exec: usize,
    pub unclassified: Vec<TestId>,
}

/// The abstract value of a [`TestClassification`].
pub struct ClassificationView {
    pub runtime_error: nat,
    pub compile_errors: nat,
    pub exit_code: nat,
    pub non_termination: nat,
    pub compiler_succeed_no_exec: nat,
    pub unclassified: Seq<Seq<char>>,
}

impl View for TestClassification {
    type V = ClassificationView;

    open spec fn view(&self) -> ClassificationView {
        ClassificationView {
            runtime_error: self.runtime_error as nat,
            compile_errors: self.compile_errors as nat,
            exit_code: self.exit_code as nat,
            non_termination: self.non_termination as nat,
            compiler_succeed_no_exec: self.compiler_succeed_no_exec as nat,
            unclassified: self.unclassified@.map_values(|t: TestId| t@),
        }
    }
}

/// A classification with one more test of class `c` and id `id`.
pub open spec fn record_spec(v: ClassificationView, c: TestClass, id: Seq<char>) -> ClassificationView {
    match c {
        TestClass::RuntimeError => ClassificationView { runtime_error: v.runtime_error + 1, ..v },
        TestClass::CompileError => ClassificationView { compile_errors: v.compile_errors + 1, ..v },
        TestClass::ExitCode => ClassificationView { exit_code: v.exit_code + 1, ..v },
        TestClass::NonTermination => ClassificationView { non_termination: v.non_termination + 1, ..v },
        TestClass::CompilerSucceedNoExec => ClassificationView {
            compiler_succeed_no_exec: v.compiler_succeed_no_exec + 1,
            ..v
        },
        TestClass::Unclassified => ClassificationView { unclassified: v.unclassified.push(id), ..v },
    }
}

/// How many tests a classification accounts for.
pub open spec fn classified_total(v: ClassificationView) -> nat {
    v.runtime_error + v.compile_errors + v.exit_code + v.non_termination + v.compiler_succeed_no_exec
        + v.unclassified.len()
}

/// Recording a test accounts for exactly one more test, under its class alone: the counter of
/// its class goes up by one (or, unclassified, its id is listed last), and nothing else changes.
pub proof fn lemma_record_one_test(v: ClassificationView, c: TestClass, id: Seq<char>)
    ensures
        ({
            let w = record_spec(v, c, id);
            &&& classified_total(w) == classified_total(v) + 1
            &&& (w.runtime_error == v.runtime_error + 1 <==> c == TestClass::RuntimeError)
            &&& (w.compile_errors == v.compile_errors + 1 <==> c == TestClass::CompileError)
            &&& (w.exit_code == v.exit_code + 1 <==> c == TestClass::ExitCode)
            &&& (w.non_termination == v.non_termination + 1 <==> c == TestClass::NonTermination)
            &&& (w.compiler_succeed_no_exec == v.compiler_succeed_no_exec + 1 <==> c == TestClass::CompilerSucceedNoExec)
            &&& (w.unclassified == v.unclassified.push(id) <==> c == TestClass::Unclassified)
            &&& w.runtime_error >= v.runtime_error && w.compile_errors >= v.compile_errors && w.exit_code >= v.exit_code
                && w.non_termination >= v.non_termination && w.compiler_succeed_no_exec >= v.compiler_succeed_no_exec
        }),
{
    let w = record_spec(v, c, id);
    if c != TestClass::Unclassified {
        assert(w.unclassified.len() != v.unclassified.push(id).len());
    }
}

/// The empty classification.
pub open spec fn empty_classification() -> ClassificationView {
    ClassificationView {
        runtime_error: 0,
        compile_errors: 0,
        exit_code: 0,
        non_termination: 0,
        compiler_succeed_no_exec: 0,
        unclassified: Seq::empty(),
    }
}

/// Whether no count of a classification is at the limit of `usize`.
pub open spec fn room_to_count(v: ClassificationView) -> bool {
    v.runtime_error < usize::MAX && v.compile_errors < usize::MAX && v.exit_code < usize::MAX && v.non_termination
        < usize::MAX && v.compiler_succeed_no_exec < usize::MAX
}

impl TestClassification {
    /// No test classified yet.
    pub fn new() -> (res: Self)
        ensures
            res@ == empty_classification(),
    {
        let res = TestClassification {
            runtime_error: 0,
            compile_errors: 0,
            exit_code: 0,
            non_termination: 0,
            compiler_succeed_no_exec: 0,
            unclassified: Vec::new(),
        };
        assert(res@.unclassified =~= Seq::<Seq<char>>::empty());
        res
    }

    /// A copy of this classification.
    pub fn duplicate(&self) -> (res: Self)
        ensures
            res@ == self@,
    {
        let mut ids: Vec<TestId> = Vec::new();
        let mut i: usize = 0;
        while i < self.unclassified.len()
            invariant
                i <= self.unclassified.len(),
                ids.len() == i,
                forall|k: int| 0 <= k < i ==> (#[trigger] ids@[k])@ == self.unclassified@[k]@,
            decreases self.unclassified.len() - i,
        {
            ids.push(self.unclassified[i].duplicate());
            i = i + 1;
        }
        assert(ids@.map_values(|t: TestId| t@) =~= self.unclassified@.map_values(|t: TestId| t@));
        TestClassification {
            runtime_error: self.runtime_error,
            compile_errors: self.compile_errors,
            exit_code: self.exit_code,
            non_termination: self.non_termination,
            compiler_succeed_no_exec: self.compiler_succeed_no_exec,
            unclassified: ids,
        }
    }

    /// Counts a test of class `c`, or lists its id where it is unclassified.
    pub fn record(&mut self, c: TestClass, id: &TestId)
        requires
            room_to_count(old(self)@),
        ensures
            final(self)@ == record_spec(old(self)@, c, id@),
    {
        match c {
            TestClass::RuntimeError => self.runtime_error = self.runtime_error + 1,
            TestClass::CompileError => self.compile_errors = self.compile_errors + 1,
            TestClass::ExitCode => self.exit_code = self.exit_code + 1,
            TestClass::NonTermination => self.non_termination = self.non_termination + 1,
            TestClass::CompilerSucceedNoExec => self.compiler_succeed_no_exec = self.compiler_succeed_no_exec + 1,
            TestClass::Unclassified => {
                let ghost before = self.unclassified@.map_values(|t: TestId| t@);
                self.unclassified.push(id.duplicate());
                assert(self.unclassified@.map_values(|t: TestId| t@) =~= before.push(id@));
            },
        }
    }
}

/// The statistics of a finalized task.
#[derive(Debug, Clone)]
pub struct FinalizedTask {
    pub task_id: TaskId,
    pub statistics: FinishedCompilerTaskStatistics,
}

/// Whether all counts are zero.
pub open spec fn no_tests(st: FinishedCompilerTaskStatistics) -> bool {
    &&& st.abort == CountWithProvisional { normal: 0, provisional: 0, total: 0 }
    &&& st.error == CountWithProvisional { normal: 0, provisional: 0, total: 0 }
    &&& st.failure == CountWithProvisional { normal: 0, provisional: 0, total: 0 }
    &&& st.success == CountWithProvisional { normal: 0, provisional: 0, total: 0 }
    &&& st.timeout == CountWithProvisional { normal: 0, provisional: 0, total: 0 }
    &&& st.total == CountWithProvisional { normal: 0, provisional: 0, total: 0 }
}

impl FinalizedTask {
    /// The finalized task that a summary describes: its id, and its statistics where it ran
    /// tests, none where its build failed.
    pub fn from_summary(value: FinishedCompilerTaskSummary) -> (res: Self)
        ensures
            res.task_id@ == value.info_spec().task_id@,
            match value {
                FinishedCompilerTaskSummary::BuildFailed { .. } => no_tests(res.statistics),
                FinishedCompilerTaskSummary::RanTests { statistics, .. } => res.statistics == statistics,
            },
    {
        let task_id = TaskId(value.info().task_id.clone());
        let statistics = match value {
            FinishedCompilerTaskSummary::BuildFailed { .. } => FinishedCompilerTaskStatistics {
                abort: CountWithProvisional::new(),
                error: CountWithProvisional::new(),
                failure: CountWithProvisional::new(),
                success: CountWithProvisional::new(),
                timeout: CountWithProvisional::new(),
                total: CountWithProvisional::new(),
            },
            FinishedCompilerTaskSummary::RanTests { statistics, .. } => statistics,
        };
        FinalizedTask { task_id, statistics }
    }
}

/// A team's statistics: its tests per category by class, and its finalized task per
/// category.
#[derive(Debug, Clone)]
pub struct TeamStatistics {
    pub team: TeamId,
    pub tests_per_category: Vec<(String, TestClassification)>,
    pub finalized_tasks_per_category: Vec<(String, FinalizedTask)>,
}

/// The views of the per-category classifications.
pub open spec fn per_category_view(v: Seq<(String, TestClassification)>) -> Seq<(Seq<char>, ClassificationView)> {
    v.map_values(|e: (String, TestClassification)| (e.0@, e.1@))
}

/// The index of the entry of category `c`.
pub open spec fn entry_index(v: Seq<(Seq<char>, ClassificationView)>, c: Seq<char>) -> Option<int> {
    if exists|i: int| 0 <= i < v.len() && (#[trigger] v[i]).0 == c {
        Some(choose|i: int| 0 <= i < v.len() && (#[trigger] v[i]).0 == c)
    } else {
        None
    }
}

/// The per-category classifications after one more test of category `c`, class `k` and id
/// `id`: its category's entry records it, or a new entry for the category does.
pub open spec fn absorb_spec(v: Seq<(Seq<char>, ClassificationView)>, c: Seq<char>, k: TestClass, id: Seq<char>) -> Seq<
    (Seq<char>, ClassificationView),
> {
    match entry_index(v, c) {
        Some(i) => v.update(i, (c, record_spec(v[i].1, k, id))),
        None => v.push((c, record_spec(empty_classification(), k, id))),
    }
}

/// Whether every category has at most one entry.
pub open spec fn distinct_categories(v: Seq<(Seq<char>, ClassificationView)>) -> bool {
    forall|i: int, j: int| 0 <= i < j < v.len() ==> (#[trigger] v[i]).0 != (#[trigger] v[j]).0
}

impl TeamStatistics {
    /// Statistics of a team without tests or finalized tasks.
    pub fn new(team: TeamId) -> (res: Self)
        ensures
            res.team@ == team@,
            res.tests_per_category@.len() == 0,
            res.finalized_tasks_per_category@.len() == 0,
    {
        TeamStatistics { team, tests_per_category: Vec::new(), finalized_tasks_per_category: Vec::new() }
    }

    /// Classifies one of the team's tests under its category.
    pub fn absorb(&mut self, test: &Test)
        requires
            distinct_categories(per_category_view(old(self).tests_per_category@)),
            forall|i: int| 0 <= i < old(self).tests_per_category@.len() ==> room_to_count(
                (#[trigger] old(self).tests_per_category@[i]).1@,
            ),
        ensures
            per_category_view(final(self).tests_per_category@) == absorb_spec(
                per_category_view(old(self).tests_per_category@),
                test.category@,
                classify_spec(modifiers_view(test.compiler_modifiers@), modifiers_view(test.binary_modifiers@)),
                test.id@,
            ),
            final(self).team == old(self).team,
            final(self).finalized_tasks_per_category == old(self).finalized_tasks_per_category,
            distinct_categories(per_category_view(final(self).tests_per_category@)),
    {
        let class = classify_test(test);
        let ghost v = per_category_view(self.tests_per_category@);
        let mut i: usize = 0;
        while i < self.tests_per_category.len()
            invariant
                i <= self.tests_per_category.len(),
                v == per_category_view(self.tests_per_category@),
                v == per_category_view(old(self).tests_per_category@),
                class == classify_spec(modifiers_view(test.compiler_modifiers@), modifiers_view(test.binary_modifiers@)),
                self.team == old(self).team,
                self.finalized_tasks_per_category == old(self).finalized_tasks_per_category,
                distinct_categories(v),
                forall|q: int| 0 <= q < self.tests_per_category@.len() ==> room_to_count(
                    (#[trigger] self.tests_per_category@[q]).1@,
                ),
                forall|j: int| 0 <= j < i ==> self.tests_per_category@[j].0@ != test.category@,
            decreases self.tests_per_category.len() - i,
        {
            if self.tests_per_category[i].0 == test.category {
                assert(v[i as int].0 == test.category@);
                assert(entry_index(v, test.category@) == Some(i as int)) by {
                    let k = choose|k: int| 0 <= k < v.len() && (#[trigger] v[k]).0 == test.category@;
                    if k < i as int {
                        assert(v[k].0 != v[i as int].0);
                    } else if k > i as int {
                        assert(v[i as int].0 != v[k].0);
                    }
                }
                assert(room_to_count(self.tests_per_category@[i as int].1@));
                let mut entry = self.tests_per_category[i].1.duplicate();
                assert(entry@ == v[i as int].1);
                entry.record(class, &test.id);
                self.tests_per_category.set(i, (test.category.clone(), entry));
                assert(per_category_view(self.tests_per_category@) =~= v.update(
                    i as int,
                    (test.category@, record_spec(v[i as int].1, class, test.id@)),
                ));
                assert(absorb_spec(v, test.category@, class, test.id@) == v.update(
                    i as int,
                    (test.category@, record_spec(v[i as int].1, class, test.id@)),
                ));
                assert(per_category_view(self.tests_per_category@) == absorb_spec(v, test.category@, class, test.id@));
                return;
            }
            i = i + 1;
        }
        assert(entry_index(v, test.category@) is None);
        let mut entry = TestClassification::new();
        entry.record(class, &test.id);
        self.tests_per_category.push((test.category.clone(), entry));
        assert(per_category_view(self.tests_per_category@) =~= v.push(
            (test.category@, record_spec(empty_classification(), class, test.id@)),
        ));
    }
}

/// The outcome of snapshotting the state for grading.
#[derive(Debug, Clone)]
pub struct SnapshotResponse {
    pub errors: Vec<String>,
    pub exported: Vec<TeamId>,
}

/// The outcome of rerunning the final submissions of a category.
#[derive(Debug, Clone)]
pub struct RerunResponse {
    pub errors: Vec<String>,
    pub submitted: Vec<(TeamId, TaskId)>,
}

} // verus!

verus! {

/// The kind of an operator of a grading formula.
#[derive(Debug, Clone, Copy, PartialEq, Eq, Structural)]
pub enum FormulaOp {
    RootNode,
    /// An infix operator: arithmetic, comparison, logic or assignment.
    Infix,
    Neg,
    Exp,
    Not,
    Tuple,
    Chain,
    Const,
    VariableIdentifierWrite,
    VariableIdentifierRead,
    FunctionIdentifier,
}

/// A node of a parsed grading formula: its operator, the operator's text, and its children.
#[derive(Debug)]
pub struct FormulaTree {
    pub op: FormulaOp,
    pub display: String,
    pub children: Vec<FormulaTree>,
}

/// The texts of the first `n` children, joined with `sep`.
pub open spec fn joined_children(cs: Seq<FormulaTree>, n: int, sep: Seq<char>) -> Seq<char>
    decreases cs, n,
{
    if n <= 0 || n > cs.len() {
        Seq::empty()
    } else if n == 1 {
        formula_text(cs[0])
    } else {
        joined_children(cs, n - 1, sep) + sep + formula_text(cs[n - 1])
    }
}

/// The text of a formula, fully parenthesised.
pub open spec fn formula_text(t: FormulaTree) -> Seq<char>
    decreases t, 0int,
{
    let cs = t.children@;
    let n = cs.len() as int;
    match t.op {
        FormulaOp::RootNode => joined_children(cs, n, " "@),
        FormulaOp::Infix => "("@ + joined_children(cs, n, " "@ + t.display@ + " "@) + ")"@,
        FormulaOp::Neg => "(-"@ + joined_children(cs, n, " "@) + ")"@,
        FormulaOp::Exp => if n >= 2 {
            "("@ + formula_text(cs[0]) + "^"@ + formula_text(cs[1]) + ")"@
        } else {
            Seq::empty()
        },
        FormulaOp::Not => "(!"@ + joined_children(cs, n, " "@) + ")"@,
        FormulaOp::Tuple => "("@ + joined_children(cs, n, ", "@) + ")"@,
        FormulaOp::Chain => "("@ + joined_children(cs, n, " "@) + ")"@,
        FormulaOp::Const => t.display@,
        FormulaOp::VariableIdentifierWrite => t.display@ + " = "@ + joined_children(cs, n, ", "@),
        FormulaOp::VariableIdentifierRead => t.display@ + joined_children(cs, n, " "@),
        FormulaOp::FunctionIdentifier => t.display@ + joined_children(cs, n, ", "@),
    }
}

/// Whether every power node of a formula has its two operands.
pub open spec fn well_formed_formula(t: FormulaTree) -> bool
    decreases t,
{
    &&& (t.op == FormulaOp::Exp ==> t.children@.len() >= 2)
    &&& forall|i: int| 0 <= i < t.children@.len() ==> well_formed_formula(#[trigger] t.children@[i])
}

fn join_children(cs: &Vec<FormulaTree>, sep: &str) -> (res: String)
    requires
        forall|i: int| 0 <= i < cs@.len() ==> well_formed_formula(#[trigger] cs@[i]),
    ensures
        res@ == joined_children(cs@, cs@.len() as int, sep@),
    decreases cs@, 1int,
{
    let mut res = String::new();
    let mut i: usize = 0;
    while i < cs.len()
        invariant
            i <= cs.len(),
            forall|k: int| 0 <= k < cs@.len() ==> well_formed_formula(#[trigger] cs@[k]),
            res@ == joined_children(cs@, i as int, sep@),
        decreases cs.len() - i,
    {
        assert(cs@[i as int] == cs[i as int]);
        let text = formula_to_string(&cs[i]);
        if i > 0 {
            res.append(sep);
        }
        res.append(text.as_str());
        i = i + 1;
    }
    res
}

/// The text of a grading formula, fully parenthesised, as the grading results show it.
pub fn formula_to_string(formula: &FormulaTree) -> (res: String)
    requires
        well_formed_formula(*formula),
    ensures
        res@ == formula_text(*formula),
    decreases *formula, 2int,
{
    let cs = &formula.children;
    match formula.op {
        FormulaOp::RootNode => join_children(cs, " "),
        FormulaOp::Infix => {
            let sep = concat3(" ", formula.display.as_str(), " ");
            concat3("(", join_children(cs, sep.as_str()).as_str(), ")")
        },
        FormulaOp::Neg => concat3("(-", join_children(cs, " ").as_str(), ")"),
        FormulaOp::Exp => {
            let a = formula_to_string(&cs[0]);
            let b = formula_to_string(&cs[1]);
            let mut r = concat3("(", a.as_str(), "^");
            r.append(b.as_str());
            r.append(")");
            r
        },
        FormulaOp::Not => concat3("(!", join_children(cs, " ").as_str(), ")"),
        FormulaOp::Tuple => concat3("(", join_children(cs, ", ").as_str(), ")"),
        FormulaOp::Chain => concat3("(", join_children(cs, " ").as_str(), ")"),
        FormulaOp::Const => formula.display.clone(),
        FormulaOp::VariableIdentifierWrite => concat3(formula.display.as_str(), " = ", join_children(cs, ", ").as_str()),
        FormulaOp::VariableIdentifierRead => concat(formula.display.as_str(), join_children(cs, " ").as_str()),
        FormulaOp::FunctionIdentifier => concat(formula.display.as_str(), join_children(cs, ", ").as_str()),
    }
}

} // verus!

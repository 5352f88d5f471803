use vstd::prelude::*;

verus! {

/// Appends one character to a string.
pub assume_specification[ String::push ](s: &mut String, ch: char)
    ensures
        final(s)@ == old(s)@.push(ch),
;

/// The characters of a string slice, in order.
pub fn chars_of(s: &str) -> (res: Vec<char>)
    ensures
        res@ == s@,
{
    let mut res: Vec<char> = Vec::new();
    for c in it: s.chars()
        invariant
            res@ == it.seq().take(it.index() as int),
            it.seq() == s@,
    {
        res.push(c);
    }
    res
}

/// Builds a string from a sequence of characters.
pub fn string_of(v: &[char]) -> (res: String)
    ensures
        res@ == v@,
{
    let mut res = String::new();
    let mut i: usize = 0;
    while i < v.len()
        invariant
            i <= v.len(),
            res@ == v@.take(i as int),
        decreases v.len() - i,
    {
        res.push(v[i]);
        i = i + 1;
    }
    res
}

} // verus!

verus! {

/// Lexicographic order on character sequences, comparing characters by code point.
/// This is the order of `String`'s `Ord`, since UTF-8 keeps code point order.
pub open spec fn seq_lt(a: Seq<char>, b: Seq<char>) -> bool
    decreases a.len(),
{
    if a.len() == 0 {
        b.len() > 0
    } else if b.len() == 0 {
        false
    } else if (a[0] as int) < (b[0] as int) {
        true
    } else if a[0] == b[0] {
        seq_lt(a.drop_first(), b.drop_first())
    } else {
        false
    }
}

pub proof fn lemma_seq_lt_irreflexive(a: Seq<char>)
    ensures
        !seq_lt(a, a),
    decreases a.len(),
{
    if a.len() > 0 {
        lemma_seq_lt_irreflexive(a.drop_first());
    }
}

pub proof fn lemma_seq_lt_transitive(a: Seq<char>, b: Seq<char>, c: Seq<char>)
    requires
        seq_lt(a, b),
        seq_lt(b, c),
    ensures
        seq_lt(a, c),
    decreases a.len(),
{
    if a.len() > 0 && b.len() > 0 && c.len() > 0 {
        if a[0] == b[0] && b[0] == c[0] {
            lemma_seq_lt_transitive(a.drop_first(), b.drop_first(), c.drop_first());
        }
    }
}

pub proof fn lemma_seq_lt_total(a: Seq<char>, b: Seq<char>)
    ensures
        a == b || seq_lt(a, b) || seq_lt(b, a),
    decreases a.len(),
{
    if a.len() > 0 && b.len() > 0 {
        if a[0] == b[0] {
            lemma_seq_lt_total(a.drop_first(), b.drop_first());
            if a.drop_first() == b.drop_first() {
                assert(a =~= seq![a[0]] + a.drop_first());
                assert(b =~= seq![b[0]] + b.drop_first());
            }
        } else {
        }
    } else if a.len() == 0 && b.len() == 0 {
        assert(a =~= b);
    }
}

/// Whether `a` orders strictly before `b`, as `a < b` on strings does.
pub fn chars_lt(a: &Vec<char>, b: &Vec<char>) -> (res: bool)
    ensures
        res == seq_lt(a@, b@),
{
    let mut i: usize = 0;
    assert(a@.skip(0) =~= a@);
    assert(b@.skip(0) =~= b@);
    while i < a.len() && i < b.len()
        invariant
            i <= a.len(),
            i <= b.len(),
            seq_lt(a@, b@) == seq_lt(a@.skip(i as int), b@.skip(i as int)),
        decreases a.len() - i,
    {
        if a[i] < b[i] {
            return true;
        }
        if a[i] != b[i] {
            return false;
        }
        assert(a@.skip(i as int).drop_first() =~= a@.skip(i + 1));
        assert(b@.skip(i as int).drop_first() =~= b@.skip(i + 1));
        i = i + 1;
    }
    i == a.len() && i < b.len()
}

/// Whether two character vectors hold the same characters.
pub fn chars_eq(a: &Vec<char>, b: &Vec<char>) -> (res: bool)
    ensures
        res == (a@ == b@),
{
    if a.len() != b.len() {
        return false;
    }
    let mut i: usize = 0;
    while i < a.len()
        invariant
            i <= a.len(),
            a.len() == b.len(),
            forall|j: int| 0 <= j < i ==> a@[j] == b@[j],
        decreases a.len() - i,
    {
        if a[i] != b[i] {
            return false;
        }
        i = i + 1;
    }
    assert(a@ =~= b@);
    true
}

} // verus!

verus! {

/// Whether two string slices hold the same characters.
pub fn same_text(a: &str, b: &str) -> (res: bool)
    ensures
        res == (a@ == b@),
{
    let x = chars_of(a);
    let y = chars_of(b);
    chars_eq(&x, &y)
}

/// The concatenation of two string slices.
pub fn concat(a: &str, b: &str) -> (res: String)
    ensures
        res@ == a@ + b@,
{
    let mut r = String::from_str(a);
    r.append(b);
    r
}

/// The concatenation of three string slices.
pub fn concat3(a: &str, b: &str, c: &str) -> (res: String)
    ensures
        res@ == a@ + b@ + c@,
{
    let mut r = String::from_str(a);
    r.append(b);
    r.append(c);
    r
}

/// Unicode `White_Space`, the characters that `char::is_whitespace` accepts.
pub open spec fn is_white(c: char) -> bool {
    let v = c as u32;
    (0x09 <= v && v <= 0x0d) || v == 0x20 || v == 0x85 || v == 0xa0 || v == 0x1680 || (0x2000 <= v && v
        <= 0x200a) || v == 0x2028 || v == 0x2029 || v == 0x202f || v == 0x205f || v == 0x3000
}

/// Whether `c` is white space, as `char::is_whitespace` decides.
pub fn is_whitespace(c: char) -> (res: bool)
    ensures
        res == is_white(c),
{
    let v = c as u32;
    (0x09 <= v && v <= 0x0d) || v == 0x20 || v == 0x85 || v == 0xa0 || v == 0x1680 || (0x2000 <= v
        && v <= 0x200a) || v == 0x2028 || v == 0x2029 || v == 0x202f || v == 0x205f || v == 0x3000
}

/// `s` without its leading white space.
pub open spec fn trim_start_spec(s: Seq<char>) -> Seq<char>
    decreases s.len(),
{
    if s.len() > 0 && is_white(s[0]) {
        trim_start_spec(s.drop_first())
    } else {
        s
    }
}

/// `s` without its trailing white space.
pub open spec fn trim_end_spec(s: Seq<char>) -> Seq<char>
    decreases s.len(),
{
    if s.len() > 0 && is_white(s.last()) {
        trim_end_spec(s.drop_last())
    } else {
        s
    }
}

/// `s` without leading and trailing white space, as `str::trim` gives it.
pub open spec fn trim_spec(s: Seq<char>) -> Seq<char> {
    trim_end_spec(trim_start_spec(s))
}

proof fn lemma_trim_start_skip(s: Seq<char>, i: int)
    requires
        0 <= i <= s.len(),
        forall|j: int| 0 <= j < i ==> is_white(#[trigger] s[j]),
    ensures
        trim_start_spec(s) == trim_start_spec(s.skip(i)),
    decreases i,
{
    if i > 0 {
        assert(s.skip(1) =~= s.drop_first());
        lemma_trim_start_skip(s.drop_first(), i - 1);
        assert(s.drop_first().skip(i - 1) =~= s.skip(i));
    } else {
        assert(s.skip(0) =~= s);
    }
}

proof fn lemma_trim_end_take(s: Seq<char>, i: int)
    requires
        0 <= i <= s.len(),
        forall|j: int| i <= j < s.len() ==> is_white(#[trigger] s[j]),
    ensures
        trim_end_spec(s) == trim_end_spec(s.take(i)),
    decreases s.len() - i,
{
    if i < s.len() {
        assert(s.take(s.len() - 1) =~= s.drop_last());
        lemma_trim_end_take(s.drop_last(), i);
        assert(s.drop_last().take(i) =~= s.take(i));
    } else {
        assert(s.take(i) =~= s);
    }
}

/// `s` without leading and trailing white space.
pub fn trim(s: &str) -> (res: String)
    ensures
        res@ == trim_spec(s@),
{
    let v = chars_of(s);
    let mut i: usize = 0;
    while i < v.len() && is_whitespace(v[i])
        invariant
            i <= v.len(),
            v@ == s@,
            forall|j: int| 0 <= j < i ==> is_white(#[trigger] v@[j]),
        decreases v.len() - i,
    {
        i = i + 1;
    }
    proof {
        lemma_trim_start_skip(v@, i as int);
    }
    let mut j: usize = v.len();
    while j > i && is_whitespace(v[j - 1])
        invariant
            i <= j <= v.len(),
            v@ == s@,
            forall|k: int| j <= k < v.len() ==> is_white(#[trigger] v@[k]),
        decreases j,
    {
        j = j - 1;
    }
    let ghost t = v@.skip(i as int);
    proof {
        assert(trim_start_spec(t) == t);
        lemma_trim_end_take(t, j - i);
        assert(t.take(j - i) =~= v@.subrange(i as int, j as int));
        if j > i {
            assert(!is_white(t.take(j - i).last()));
        }
    }
    string_of(&v.as_slice()[i..j])
}

} // verus!

verus! {

/// The decimal digit character for `d`.
pub open spec fn digit_char(d: nat) -> char {
    (48 + d) as char
}

/// Whether `c` is an ASCII decimal digit.
pub open spec fn is_digit(c: char) -> bool {
    '0' <= c && c <= '9'
}

/// The value of the ASCII decimal digit `c`.
pub open spec fn digit_value(c: char) -> nat {
    (c as u32 - 48) as nat
}

/// The decimal representation of `n`, as `to_string` gives it for an unsigned integer.
pub open spec fn decimal(n: nat) -> Seq<char>
    decreases n,
{
    if n < 10 {
        seq![digit_char(n)]
    } else {
        decimal(n / 10).push(digit_char(n % 10))
    }
}

/// The decimal representation of `n`.
pub fn u64_to_decimal(n: u64) -> (res: String)
    ensures
        res@ == decimal(n as nat),
    decreases n,
{
    let d: u8 = (n % 10) as u8;
    let c: char = (48u8 + d) as char;
    if n < 10 {
        let mut s = String::new();
        s.push(c);
        assert(s@ =~= decimal(n as nat));
        s
    } else {
        let mut s = u64_to_decimal(n / 10);
        s.push(c);
        s
    }
}

/// Why a text is not an unsigned integer, in the terms of std's `IntErrorKind`.
#[derive(Debug, Clone, Copy, PartialEq, Eq, Structural)]
pub enum IntProblem {
    Empty,
    InvalidDigit,
    PosOverflow,
}

/// The value of the first `n` digits of `d`, or the first problem met reading them from the
/// left, for a target of at most `max`.
pub open spec fn digits_value(d: Seq<char>, n: int, max: nat) -> Result<nat, IntProblem>
    decreases n,
{
    if n <= 0 {
        Ok(0)
    } else {
        match digits_value(d, n - 1, max) {
            Err(e) => Err(e),
            Ok(v) => if !is_digit(d[n - 1]) {
                Err(IntProblem::InvalidDigit)
            } else if v * 10 + digit_value(d[n - 1]) > max {
                Err(IntProblem::PosOverflow)
            } else {
                Ok(v * 10 + digit_value(d[n - 1]))
            },
        }
    }
}

/// How `str::parse` reads an unsigned integer of at most `max`: an optional `+`, then one or
/// more decimal digits.
pub open spec fn parse_unsigned_spec(s: Seq<char>, max: nat) -> Result<nat, IntProblem> {
    if s.len() == 0 {
        Err(IntProblem::Empty)
    } else if (s[0] == '+' || s[0] == '-') && s.len() == 1 {
        Err(IntProblem::InvalidDigit)
    } else if s[0] == '+' {
        digits_value(s.drop_first(), s.len() - 1, max)
    } else {
        digits_value(s, s.len() as int, max)
    }
}

/// Reads `s` as a `u8`, as `s.parse::<u8>()` does.
pub fn parse_u8(s: &str) -> (res: Result<u8, IntProblem>)
    ensures
        match parse_unsigned_spec(s@, 255) {
            Ok(v) => res == Ok::<u8, IntProblem>(v as u8),
            Err(e) => res == Err::<u8, IntProblem>(e),
        },
{
    let v = chars_of(s);
    if v.len() == 0 {
        return Err(IntProblem::Empty);
    }
    if (v[0] == '+' || v[0] == '-') && v.len() == 1 {
        return Err(IntProblem::InvalidDigit);
    }
    let start: usize = if v[0] == '+' { 1 } else { 0 };
    let ghost d = v@.skip(start as int);
    assert(start == 1 ==> d =~= s@.drop_first());
    assert(start == 0 ==> d =~= s@);
    assert(parse_unsigned_spec(s@, 255) == digits_value(d, d.len() as int, 255));
    let mut acc: u32 = 0;
    let mut i: usize = start;
    while i < v.len()
        invariant
            start <= i <= v.len(),
            v@ == s@,
            s@.len() > 0,
            !((s@[0] == '+' || s@[0] == '-') && s@.len() == 1),
            start == 1 ==> s@[0] == '+' && d == s@.drop_first(),
            start == 0 ==> s@[0] != '+' && d == s@,
            d == v@.skip(start as int),
            d.len() == v@.len() - start,
            parse_unsigned_spec(s@, 255) == digits_value(d, d.len() as int, 255),
            acc <= 255,
            digits_value(d, i - start, 255) == Ok::<nat, IntProblem>(acc as nat),
        decreases v.len() - i,
    {
        let c = v[i];
        assert(d[i - start] == c);
        if !('0' <= c && c <= '9') {
            assert(digits_value(d, i - start + 1, 255) == Err::<nat, IntProblem>(IntProblem::InvalidDigit));
            proof { lemma_digits_err_sticks(d, i - start + 1, d.len() as int, 255); }
            return Err(IntProblem::InvalidDigit);
        }
        let x: u32 = (c as u32) - 48;
        if acc * 10 + x > 255 {
            assert(digits_value(d, i - start + 1, 255) == Err::<nat, IntProblem>(IntProblem::PosOverflow));
            proof { lemma_digits_err_sticks(d, i - start + 1, d.len() as int, 255); }
            return Err(IntProblem::PosOverflow);
        }
        acc = acc * 10 + x;
        i = i + 1;
    }
    Ok(acc as u8)
}

proof fn lemma_digits_err_sticks(d: Seq<char>, n: int, m: int, max: nat)
    requires
        0 <= n <= m,
        digits_value(d, n, max) is Err,
    ensures
        digits_value(d, m, max) == digits_value(d, n, max),
    decreases m - n,
{
    if m > n {
        lemma_digits_err_sticks(d, n, m - 1, max);
    }
}

proof fn lemma_digit_char(k: nat)
    requires
        k < 10,
    ensures
        is_digit(digit_char(k)),
        digit_value(digit_char(k)) == k,
{
    assert((48 + k) as char as u32 == 48 + k);
}

/// Reading the decimal representation of a byte gives back the byte.
pub proof fn lemma_parse_decimal_u8(n: nat)
    requires
        n <= 255,
    ensures
        parse_unsigned_spec(decimal(n), 255) == Ok::<nat, IntProblem>(n),
{
    let s = decimal(n);
    reveal_with_fuel(digits_value, 4);
    lemma_digit_char(n % 10);
    lemma_digit_char((n / 10) % 10);
    lemma_digit_char(n / 100);
    if n < 10 {
        assert(digits_value(s, 1, 255) == Ok::<nat, IntProblem>(n));
    } else if n < 100 {
        assert(decimal(n / 10) == seq![digit_char(n / 10)]);
        assert(s[0] == digit_char(n / 10));
        assert(s[1] == digit_char(n % 10));
        assert(digits_value(s, 1, 255) == Ok::<nat, IntProblem>(n / 10));
        assert(digits_value(s, 2, 255) == Ok::<nat, IntProblem>(n));
    } else {
        let q = n / 10;
        assert(decimal(q) == decimal(q / 10).push(digit_char(q % 10)));
        assert(decimal(q / 10) == seq![digit_char(q / 10)]);
        assert(s[0] == digit_char(q / 10));
        assert(s[1] == digit_char(q % 10));
        assert(s[2] == digit_char(n % 10));
        assert(digits_value(s, 1, 255) == Ok::<nat, IntProblem>(q / 10));
        assert(digits_value(s, 2, 255) == Ok::<nat, IntProblem>(q));
        assert(digits_value(s, 3, 255) == Ok::<nat, IntProblem>(n));
    }
}

/// How `str::parse::<bool>` reads `s`.
pub open spec fn parse_bool_spec(s: Seq<char>) -> Option<bool> {
    if s == "true"@ {
        Some(true)
    } else if s == "false"@ {
        Some(false)
    } else {
        None
    }
}

/// Reads `s` as a `bool`: `None` where `s.parse::<bool>()` fails.
pub fn parse_bool(s: &str) -> (res: Option<bool>)
    ensures
        res == parse_bool_spec(s@),
{
    if same_text(s, "true") {
        Some(true)
    } else if same_text(s, "false") {
        Some(false)
    } else {
        None
    }
}

/// The text of a `bool`, as `to_string` gives it.
pub open spec fn bool_text(b: bool) -> Seq<char> {
    if b {
        "true"@
    } else {
        "false"@
    }
}

/// The text of `b`.
pub fn bool_to_string(b: bool) -> (res: String)
    ensures
        res@ == bool_text(b),
{
    if b {
        String::from_str("true")
    } else {
        String::from_str("false")
    }
}

/// A text that neither starts nor ends with white space is its own trim.
pub proof fn lemma_trim_plain(s: Seq<char>)
    requires
        s.len() > 0,
        !is_white(s[0]),
        !is_white(s.last()),
    ensures
        trim_spec(s) == s,
{
    assert(trim_start_spec(s) == s);
}


/// Whether `p` occurs in `s` at position `i`.
pub open spec fn occurs_at(s: Seq<char>, p: Seq<char>, i: int) -> bool {
    0 <= i && i + p.len() <= s.len() && s.subrange(i, i + p.len()) == p
}

/// Whether `p` occurs in `s`.
pub open spec fn contains_spec(s: Seq<char>, p: Seq<char>) -> bool {
    exists|i: int| #[trigger] occurs_at(s, p, i)
}

fn occurs_at_exec(s: &Vec<char>, p: &Vec<char>, i: usize) -> (res: bool)
    requires
        i + p.len() <= s.len(),
    ensures
        res == occurs_at(s@, p@, i as int),
{
    let mut k: usize = 0;
    while k < p.len()
        invariant
            k <= p.len(),
            i + p.len() <= s.len(),
            forall|j: int| 0 <= j < k ==> s@[i + j] == p@[j],
        decreases p.len() - k,
    {
        if s[i + k] != p[k] {
            assert(s@.subrange(i as int, i + p.len())[k as int] != p@[k as int]);
            return false;
        }
        k = k + 1;
    }
    assert(s@.subrange(i as int, i + p.len()) =~= p@);
    true
}

/// Whether `pat` occurs in `s`.
pub fn contains_text(s: &str, pat: &str) -> (res: bool)
    ensures
        res == contains_spec(s@, pat@),
{
    let a = chars_of(s);
    let b = chars_of(pat);
    if b.len() > a.len() {
        return false;
    }
    let mut i: usize = 0;
    let last = a.len() - b.len();
    while i <= last
        invariant
            b.len() <= a.len(),
            last == a.len() - b.len(),
            i <= last + 1,
            a@ == s@,
            b@ == pat@,
            forall|j: int| 0 <= j < i ==> !occurs_at(s@, pat@, j),
        decreases last + 1 - i,
    {
        if occurs_at_exec(&a, &b, i) {
            return true;
        }
        if i == last {
            assert forall|j: int| #[trigger] occurs_at(s@, pat@, j) implies false by {
                assert(j <= last);
            }
            return false;
        }
        i = i + 1;
    }
    false
}

/// Whether `s` starts with `p`.
pub open spec fn starts_with_spec(s: Seq<char>, p: Seq<char>) -> bool {
    p.len() <= s.len() && s.take(p.len() as int) == p
}

/// `s` without the prefix `p`, where it has it.
pub fn strip_prefix_text(s: &str, p: &str) -> (res: Option<String>)
    ensures
        if starts_with_spec(s@, p@) {
            res matches Some(r) && r@ == s@.skip(p@.len() as int)
        } else {
            res is None
        },
{
    let a = chars_of(s);
    let b = chars_of(p);
    if b.len() > a.len() {
        return None;
    }
    if occurs_at_exec(&a, &b, 0) {
        assert(s@.subrange(0, p@.len() as int) =~= s@.take(p@.len() as int));
        Some(string_of(&a.as_slice()[b.len()..a.len()]))
    } else {
        assert(s@.subrange(0, p@.len() as int) =~= s@.take(p@.len() as int));
        None
    }
}

/// `s` with every occurrence of `p` replaced by `w`, left to right and without overlaps, as
/// `str::replace` does for a non-empty pattern.
pub open spec fn replace_spec(s: Seq<char>, p: Seq<char>, w: Seq<char>) -> Seq<char>
    decreases s.len(),
{
    if p.len() == 0 || s.len() < p.len() {
        s
    } else if s.take(p.len() as int) == p {
        w + replace_spec(s.skip(p.len() as int), p, w)
    } else {
        seq![s[0]] + replace_spec(s.drop_first(), p, w)
    }
}

/// `s` with every occurrence of the non-empty pattern `pat` replaced by `with`.
pub fn replace_all(s: &str, pat: &str, with: &str) -> (res: String)
    requires
        pat@.len() > 0,
    ensures
        res@ == replace_spec(s@, pat@, with@),
{
    let a = chars_of(s);
    let b = chars_of(pat);
    let w = chars_of(with);
    let mut out: Vec<char> = Vec::new();
    let mut i: usize = 0;
    assert(a@.skip(0) =~= a@);
    while i < a.len()
        invariant
            i <= a.len(),
            a@ == s@,
            b@ == pat@,
            w@ == with@,
            b.len() > 0,
            out@ + replace_spec(a@.skip(i as int), b@, w@) == replace_spec(s@, pat@, with@),
        decreases a.len() - i,
    {
        let ghost rest = a@.skip(i as int);
        if b.len() <= a.len() - i && occurs_at_exec(&a, &b, i) {
            assert(rest.take(b.len() as int) =~= a@.subrange(i as int, i + b.len()));
            assert(rest.skip(b.len() as int) =~= a@.skip(i + b.len()));
            let ghost before = out@;
            let mut k: usize = 0;
            while k < w.len()
                invariant
                    k <= w.len(),
                    out@ == before + w@.take(k as int),
                decreases w.len() - k,
            {
                out.push(w[k]);
                assert(out@ =~= before + w@.take(k + 1));
                k = k + 1;
            }
            assert(w@.take(w.len() as int) =~= w@);
            assert(out@ + replace_spec(a@.skip(i + b.len()), b@, w@) =~= before + (w@ + replace_spec(rest.skip(b.len() as int), b@, w@)));
            i = i + b.len();
        } else {
            if b.len() <= a.len() - i {
                assert(rest.take(b.len() as int) =~= a@.subrange(i as int, i + b.len()));
            }
            assert(rest.drop_first() =~= a@.skip(i + 1));
            assert(rest[0] == a@[i as int]);
            let ghost before = out@;
            out.push(a[i]);
            proof {
                if rest.len() < b@.len() {
                    assert(replace_spec(rest, b@, w@) == rest);
                    assert(replace_spec(rest.drop_first(), b@, w@) == rest.drop_first());
                    assert(rest =~= seq![rest[0]] + rest.drop_first());
                }
            }
            assert(out@ + replace_spec(a@.skip(i + 1), b@, w@) =~= before + (seq![rest[0]] + replace_spec(rest.drop_first(), b@, w@)));
            i = i + 1;
        }
    }
    assert(a@.skip(i as int) =~= Seq::<char>::empty());
    assert(out@ + Seq::<char>::empty() =~= out@);
    string_of(out.as_slice())
}


/// The position of the first `c` in `s`.
pub open spec fn first_index_of(s: Seq<char>, c: char) -> Option<int>
    decreases s.len(),
{
    if s.len() == 0 {
        None
    } else if s[0] == c {
        Some(0)
    } else {
        match first_index_of(s.drop_first(), c) {
            Some(i) => Some(i + 1),
            None => None,
        }
    }
}

/// A line without the `\r` of a `\r\n` ending.
pub open spec fn strip_cr(l: Seq<char>) -> Seq<char> {
    if l.len() > 0 && l.last() == '\r' {
        l.drop_last()
    } else {
        l
    }
}

/// The lines of `s`, as `str::lines` gives them: split at each `\n`, a `\r` before the `\n`
/// dropped, and no empty line after a final `\n`.
pub open spec fn lines_spec(s: Seq<char>) -> Seq<Seq<char>>
    decreases s.len(),
{
    if s.len() == 0 {
        Seq::empty()
    } else {
        match first_index_of(s, '\n') {
            Some(i) => if 0 <= i < s.len() {
                seq![strip_cr(s.take(i))] + lines_spec(s.skip(i + 1))
            } else {
                Seq::empty()
            },
            None => seq![s],
        }
    }
}

proof fn lemma_first_index_of(s: Seq<char>, c: char, k: int)
    requires
        0 <= k <= s.len(),
        forall|j: int| 0 <= j < k ==> s[j] != c,
    ensures
        k < s.len() && s[k] == c ==> first_index_of(s, c) == Some(k),
        k == s.len() ==> first_index_of(s, c) is None,
    decreases k,
{
    if k > 0 {
        lemma_first_index_of(s.drop_first(), c, k - 1);
    } else if s.len() > 0 {
    }
}

/// The views of a sequence of strings.
pub open spec fn strings_view(v: Seq<String>) -> Seq<Seq<char>> {
    v.map_values(|x: String| x@)
}

/// The lines of `s`.
pub fn lines_of(s: &str) -> (res: Vec<String>)
    ensures
        strings_view(res@) == lines_spec(s@),
{
    let a = chars_of(s);
    let mut res: Vec<String> = Vec::new();
    let mut start: usize = 0;
    assert(a@.skip(0) =~= a@);
    while start < a.len()
        invariant
            start <= a.len(),
            a@ == s@,
            strings_view(res@) + lines_spec(a@.skip(start as int)) == lines_spec(s@),
        decreases a.len() - start,
    {
        let ghost rest = a@.skip(start as int);
        let mut j: usize = start;
        while j < a.len() && a[j] != '\n'
            invariant
                start <= j <= a.len(),
                forall|k: int| start <= k < j ==> a@[k] != '\n',
            decreases a.len() - j,
        {
            j = j + 1;
        }
        proof {
            assert forall|k: int| 0 <= k < j - start implies rest[k] != '\n' by {
                assert(rest[k] == a@[start + k]);
            }
            lemma_first_index_of(rest, '\n', j - start);
        }
        let mut end: usize = j;
        if j < a.len() && end > start && a[end - 1] == '\r' {
            end = end - 1;
        }
        let line = string_of(&a.as_slice()[start..end]);
        let ghost before = strings_view(res@);
        res.push(line);
        if j < a.len() {
            assert(rest.take(j - start) =~= a@.subrange(start as int, j as int));
            assert(line@ =~= strip_cr(rest.take(j - start)));
            assert(rest.skip(j - start + 1) =~= a@.skip(j + 1));
            assert(strings_view(res@) =~= before.push(line@));
            assert(strings_view(res@) + lines_spec(a@.skip(j + 1)) =~= before + lines_spec(rest));
            start = j + 1;
        } else {
            assert(line@ =~= rest);
            assert(strings_view(res@) =~= before.push(line@));
            assert(a@.skip(a.len() as int) =~= Seq::<char>::empty());
            assert(strings_view(res@) + lines_spec(a@.skip(a.len() as int)) =~= before + lines_spec(rest));
            start = a.len();
        }
    }
    assert(a@.skip(start as int) =~= Seq::<char>::empty());
    assert(strings_view(res@) + Seq::<Seq<char>>::empty() =~= strings_view(res@));
    res
}

/// The strings of `v` joined with `sep` between them, as `join` does.
pub open spec fn join_spec(v: Seq<Seq<char>>, sep: Seq<char>) -> Seq<char>
    decreases v.len(),
{
    if v.len() == 0 {
        Seq::empty()
    } else if v.len() == 1 {
        v[0]
    } else {
        join_spec(v.drop_last(), sep) + sep + v.last()
    }
}

/// The strings of `v` joined with `sep` between them.
pub fn join_strings(v: &Vec<String>, sep: &str) -> (res: String)
    ensures
        res@ == join_spec(strings_view(v@), sep@),
{
    let ghost sv = strings_view(v@);
    if v.len() == 0 {
        return String::new();
    }
    let mut res = v[0].clone();
    let mut i: usize = 1;
    assert(sv.take(1).drop_last() =~= Seq::<Seq<char>>::empty());
    assert(join_spec(sv.take(1), sep@) == sv[0]);
    while i < v.len()
        invariant
            1 <= i <= v.len(),
            sv == strings_view(v@),
            res@ == join_spec(sv.take(i as int), sep@),
        decreases v.len() - i,
    {
        assert(sv.take(i + 1).drop_last() =~= sv.take(i as int));
        res.append(sep);
        res.append(v[i].as_str());
        i = i + 1;
    }
    assert(sv.take(i as int) =~= sv);
    res
}

/// How `str::parse::<i32>` reads `s`: an optional sign, then one or more decimal digits, within
/// the range of `i32`.
pub open spec fn parse_i32_spec(s: Seq<char>) -> Option<int> {
    if s.len() == 0 || ((s[0] == '+' || s[0] == '-') && s.len() == 1) {
        None
    } else if s[0] == '-' {
        match digits_value(s.drop_first(), s.len() - 1, 0x8000_0000) {
            Ok(v) => Some(-v),
            Err(_) => None,
        }
    } else if s[0] == '+' {
        match digits_value(s.drop_first(), s.len() - 1, 0x7fff_ffff) {
            Ok(v) => Some(v as int),
            Err(_) => None,
        }
    } else {
        match digits_value(s, s.len() as int, 0x7fff_ffff) {
            Ok(v) => Some(v as int),
            Err(_) => None,
        }
    }
}

/// Reads `s` as an `i32`: `None` where `s.parse::<i32>()` fails.
pub fn parse_i32(s: &str) -> (res: Option<i32>)
    ensures
        match parse_i32_spec(s@) {
            Some(v) => res == Some(v as i32) && i32::MIN <= v <= i32::MAX,
            None => res is None,
        },
{
    let v = chars_of(s);
    if v.len() == 0 || ((v[0] == '+' || v[0] == '-') && v.len() == 1) {
        return None;
    }
    let neg = v[0] == '-';
    let start: usize = if v[0] == '+' || v[0] == '-' { 1 } else { 0 };
    let max: u64 = if neg { 0x8000_0000 } else { 0x7fff_ffff };
    let ghost d = v@.skip(start as int);
    assert(start == 1 ==> d =~= s@.drop_first());
    assert(start == 0 ==> d =~= s@);
    assert(parse_i32_spec(s@) == match digits_value(d, d.len() as int, max as nat) {
        Ok(x) => Some(if neg { -x } else { x as int }),
        Err(_) => None::<int>,
    });
    let mut acc: u64 = 0;
    let mut i: usize = start;
    while i < v.len()
        invariant
            start <= i <= v.len(),
            v@ == s@,
            d == v@.skip(start as int),
            d.len() == v@.len() - start,
            parse_i32_spec(s@) == match digits_value(d, d.len() as int, max as nat) {
                Ok(x) => Some(if neg { -x } else { x as int }),
                Err(_) => None::<int>,
            },
            acc <= max,
            max <= 0x8000_0000,
            digits_value(d, i - start, max as nat) == Ok::<nat, IntProblem>(acc as nat),
        decreases v.len() - i,
    {
        let c = v[i];
        assert(d[i - start] == c);
        if !('0' <= c && c <= '9') {
            assert(digits_value(d, i - start + 1, max as nat) is Err);
            proof { lemma_digits_err_sticks(d, i - start + 1, d.len() as int, max as nat); }
            return None;
        }
        let x: u64 = (c as u64) - 48;
        if acc * 10 + x > max {
            assert(digits_value(d, i - start + 1, max as nat) is Err);
            proof { lemma_digits_err_sticks(d, i - start + 1, d.len() as int, max as nat); }
            return None;
        }
        acc = acc * 10 + x;
        i = i + 1;
    }
    if neg {
        if acc == 0x8000_0000 {
            Some(i32::MIN)
        } else {
            Some(0i32 - (acc as i32))
        }
    } else {
        Some(acc as i32)
    }
}


/// `s` in lower case, as `str::to_lowercase` maps it.
pub uninterp spec fn lowercase_text(s: Seq<char>) -> Seq<char>;

/// An ASCII character in lower case: `A` to `Z` become `a` to `z`, the rest stays.
pub open spec fn ascii_lower(c: char) -> char {
    if 'A' <= c && c <= 'Z' {
        ((c as u32) + 32) as char
    } else {
        c
    }
}

/// Maps `s` to lower case with `str::to_lowercase`, which follows Unicode's lower-case mapping.
/// The contract claims that the result is a function of the text, and, for a text of ASCII
/// characters only, that it maps `A` to `Z` to `a` to `z` and keeps the rest; it leaves the
/// mapping of other characters unsaid.
#[verifier::external_body]
pub(crate) fn to_lowercase(s: &str) -> (res: String)
    ensures
        res@ == lowercase_text(s@),
        (forall|i: int| 0 <= i < s@.len() ==> (#[trigger] s@[i] as u32) < 128) ==> res@ == s@.map_values(
            |c: char| ascii_lower(c),
        ),
{
    s.to_lowercase()
}

/// The text of an integer, as `to_string` writes it.
pub open spec fn int_text(n: int) -> Seq<char> {
    if n < 0 {
        seq!['-'] + decimal((-n) as nat)
    } else {
        decimal(n as nat)
    }
}

/// The text of `n`.
pub fn i64_to_decimal(n: i64) -> (res: String)
    ensures
        res@ == int_text(n as int),
{
    if n < 0 {
        let m: u64 = if n == i64::MIN { 9_223_372_036_854_775_808u64 } else { (0 - n) as u64 };
        let digits = u64_to_decimal(m);
        let mut r = String::new();
        r.push('-');
        r.append(digits.as_str());
        assert(r@ =~= seq!['-'] + decimal((-n) as nat));
        r
    } else {
        u64_to_decimal(n as u64)
    }
}

/// The text that `String::from_utf8_lossy` reads from `b`.
pub uninterp spec fn lossy_text(b: Seq<u8>) -> Seq<char>;

/// Reads `b` as UTF-8 with `String::from_utf8_lossy`, which replaces invalid sequences. The
/// contract claims only that the text is a function of the bytes.
#[verifier::external_body]
pub(crate) fn utf8_lossy(b: &[u8]) -> (res: String)
    ensures
        res@ == lossy_text(b@),
{
    String::from_utf8_lossy(b).to_string()
}

} // verus!

//! Tool versions: finding a version number in a tool's `--version` output,
//! and comparing it with a required minimum.
use vstd::prelude::*;

use crate::checks::{join2, Check, Diagnostic, Level};
use crate::string_map::StringMap;
use crate::text::{chars_of, char_is_digit, is_digit, lossy_utf8, starts_with, strip_prefix, utf8_lossy};

verus! {

/// Index of the first ASCII digit of `s` at or after `i` (`s.len()` when none).
pub open spec fn first_digit(s: Seq<char>, i: int) -> int
    decreases s.len() - i,
{
    if 0 <= i < s.len() && !is_digit(s[i]) {
        first_digit(s, i + 1)
    } else {
        i
    }
}

/// End of the run of digits and dots that starts at `i`.
pub open spec fn version_run_end(s: Seq<char>, i: int) -> int
    decreases s.len() - i,
{
    if 0 <= i < s.len() && (is_digit(s[i]) || s[i] == '.') {
        version_run_end(s, i + 1)
    } else {
        i
    }
}

/// The version number in `s`: the run of digits and dots that begins at the
/// first ASCII digit of `s`; none when `s` holds no digit.
pub open spec fn extracted_version(s: Seq<char>) -> Option<Seq<char>> {
    let start = first_digit(s, 0);
    if start >= s.len() {
        None
    } else {
        Some(s.subrange(start, version_run_end(s, start)))
    }
}

/// Finds the version number (digits separated by dots) in `text`.
pub fn extract_version(text: &str) -> (r: Option<String>)
    ensures
        r is Some <==> extracted_version(text@) is Some,
        r matches Some(v) ==> v@ == extracted_version(text@)->0,
{
    let v = chars_of(text);
    let n = v.len();
    let ghost s = text@;
    let mut i: usize = 0;
    while i < n && !char_is_digit(v[i])
        invariant
            v@ == s,
            n == s.len(),
            i <= n,
            first_digit(s, i as int) == first_digit(s, 0),
        decreases n - i,
    {
        i = i + 1;
    }
    if i == n {
        return None;
    }
    let start = i;
    let mut j: usize = start;
    while j < n && (char_is_digit(v[j]) || v[j] == '.')
        invariant
            v@ == s,
            n == s.len(),
            start <= j <= n,
            version_run_end(s, j as int) == version_run_end(s, start as int),
        decreases n - j,
    {
        j = j + 1;
    }
    Some(String::from_str(text.substring_char(start, j)))
}

/// The number written by the decimal digits `d`.
pub open spec fn digits_value(d: Seq<char>) -> int
    decreases d.len(),
{
    if d.len() == 0 {
        0
    } else {
        digits_value(d.drop_last()) * 10 + (d.last() as int - '0' as int)
    }
}

/// Every character of `d` is an ASCII digit.
pub open spec fn all_digits(d: Seq<char>) -> bool {
    forall|k: int| 0 <= k < d.len() ==> is_digit(#[trigger] d[k])
}

/// `t` read as a `u32` the way `str::parse::<u32>` reads it: an optional `+`,
/// then one or more ASCII digits, with a value that fits in a `u32`.
pub open spec fn parse_u32(t: Seq<char>) -> Option<u32> {
    let d = if t.len() > 0 && t[0] == '+' {
        t.drop_first()
    } else {
        t
    };
    if d.len() > 0 && all_digits(d) && digits_value(d) <= u32::MAX {
        Some(digits_value(d) as u32)
    } else {
        None
    }
}

/// `parse_u32` of the characters `v[lo..hi]`.
fn parse_u32_range(v: &Vec<char>, lo: usize, hi: usize) -> (r: Option<u32>)
    requires
        lo <= hi <= v@.len(),
    ensures
        r == parse_u32(v@.subrange(lo as int, hi as int)),
{
    let ghost t = v@.subrange(lo as int, hi as int);
    let mut k: usize = lo;
    if k < hi && v[k] == '+' {
        k = k + 1;
    }
    let ghost d = v@.subrange(k as int, hi as int);
    assert(d =~= (if t.len() > 0 && t[0] == '+' {
        t.drop_first()
    } else {
        t
    }));
    if k == hi {
        return None;
    }
    let limit: u64 = 0x1_0000_0000;
    let mut acc: u64 = 0;
    let mut j: usize = k;
    while j < hi
        invariant
            lo <= k <= j <= hi <= v@.len(),
            d == v@.subrange(k as int, hi as int),
            t == v@.subrange(lo as int, hi as int),
            d == (if t.len() > 0 && t[0] == '+' {
                t.drop_first()
            } else {
                t
            }),
            all_digits(v@.subrange(k as int, j as int)),
            limit == 0x1_0000_0000,
            acc == (if digits_value(v@.subrange(k as int, j as int)) < limit {
                digits_value(v@.subrange(k as int, j as int))
            } else {
                limit as int
            }),
        decreases hi - j,
    {
        let c = v[j];
        if !char_is_digit(c) {
            assert(d[j - k] == c);
            assert(!is_digit(d[j - k]));
            assert(!all_digits(d));
            return None;
        }
        let ghost prev = v@.subrange(k as int, j as int);
        let ghost next = v@.subrange(k as int, j + 1);
        assert(next.drop_last() =~= prev);
        assert(digits_value(next) == digits_value(prev) * 10 + (c as int - '0' as int));
        assert(digits_value(prev) >= 0) by {
            lemma_digits_value_nonneg(prev);
        }
        let dv: u64 = (c as u32 - '0' as u32) as u64;
        let x = acc * 10 + dv;
        acc = if x < limit {
            x
        } else {
            limit
        };
        j = j + 1;
    }
    assert(v@.subrange(k as int, j as int) =~= d);
    if acc < limit {
        Some(acc as u32)
    } else {
        None
    }
}

/// `digits_value` is never negative on digits.
pub proof fn lemma_digits_value_nonneg(d: Seq<char>)
    requires
        all_digits(d),
    ensures
        digits_value(d) >= 0,
    decreases d.len(),
{
    if d.len() > 0 {
        assert(is_digit(d[d.len() - 1]));
        lemma_digits_value_nonneg(d.drop_last());
    }
}


/// Number of characters of `s` before its first `.` (`s.len()` when none).
pub open spec fn dot_index(s: Seq<char>) -> nat
    decreases s.len(),
{
    if s.len() == 0 || s[0] == '.' {
        0
    } else {
        1 + dot_index(s.drop_first())
    }
}

/// The numbers of a version string: `s` split at every `.`, each piece read
/// with `parse_u32`, and the pieces that do not read as a `u32` left out.
pub open spec fn version_parts(s: Seq<char>) -> Seq<u32>
    decreases s.len(),
{
    let e = dot_index(s);
    let here = match parse_u32(s.take(e as int)) {
        Some(x) => seq![x],
        None => Seq::empty(),
    };
    if e < s.len() {
        here + version_parts(s.skip(e + 1 as int))
    } else {
        here
    }
}

/// The numbers of the version string `s` (see `version_parts`).
pub fn parse_version(s: &str) -> (r: Vec<u32>)
    ensures
        r@ == version_parts(s@),
{
    let v = chars_of(s);
    let n = v.len();
    let ghost text = s@;
    let mut out: Vec<u32> = Vec::new();
    let mut pos: usize = 0;
    assert(text.skip(0) =~= text);
    loop
        invariant
            text == s@,
            v@ == text,
            n == text.len(),
            pos <= n,
            version_parts(text) == out@ + version_parts(text.skip(pos as int)),
        decreases n - pos,
    {
        let ghost rest = text.skip(pos as int);
        let mut j: usize = pos;
        while j < n && v[j] != '.'
            invariant
                v@ == text,
                n == text.len(),
                pos <= j <= n,
                rest == text.skip(pos as int),
                dot_index(rest) == (j - pos) + dot_index(text.skip(j as int)),
            decreases n - j,
        {
            assert(text.skip(j as int).drop_first() =~= text.skip(j + 1));
            j = j + 1;
        }
        assert(dot_index(text.skip(j as int)) == 0);
        let e = j - pos;
        assert(rest.take(e as int) =~= v@.subrange(pos as int, j as int));
        let parsed = parse_u32_range(&v, pos, j);
        let ghost before = out@;
        match parsed {
            Some(x) => {
                out.push(x);
            },
            None => {},
        }
        if j < n {
            assert(rest.skip(e + 1 as int) =~= text.skip(j + 1));
            assert(out@ =~= before + (match parse_u32(rest.take(e as int)) {
                Some(x) => seq![x],
                None => Seq::<u32>::empty(),
            }));
            pos = j + 1;
        } else {
            assert(dot_index(rest) == e);
            assert(rest.len() == e);
            assert(version_parts(rest) == (match parse_u32(rest.take(e as int)) {
                Some(x) => seq![x],
                None => Seq::<u32>::empty(),
            }));
            assert(out@ =~= before + (match parse_u32(rest.take(e as int)) {
                Some(x) => seq![x],
                None => Seq::<u32>::empty(),
            }));
            return out;
        }
    }
}

/// Whether the version numbers `a` reach the minimum `m`: at the first place
/// where they differ `a` has the larger number; when one runs out first,
/// `a` must be at least as long as `m`.
pub open spec fn parts_ge(a: Seq<u32>, m: Seq<u32>) -> bool
    decreases a.len(),
{
    if a.len() == 0 || m.len() == 0 {
        a.len() >= m.len()
    } else if a[0] != m[0] {
        a[0] > m[0]
    } else {
        parts_ge(a.drop_first(), m.drop_first())
    }
}

/// Whether the version `actual` satisfies the minimum version `minimum`.
pub open spec fn satisfies(actual: Seq<char>, minimum: Seq<char>) -> bool {
    parts_ge(version_parts(actual), version_parts(minimum))
}

/// Compares two versions part by part (major.minor...).
pub fn version_satisfies(actual: &str, minimum: &str) -> (r: bool)
    ensures
        r == satisfies(actual@, minimum@),
{
    let a = parse_version(actual);
    let m = parse_version(minimum);
    let ghost sa = a@;
    let ghost sm = m@;
    let mut i: usize = 0;
    assert(sa.skip(0) =~= sa);
    assert(sm.skip(0) =~= sm);
    while i < a.len() && i < m.len()
        invariant
            a@ == sa,
            m@ == sm,
            sa == version_parts(actual@),
            sm == version_parts(minimum@),
            i <= sa.len(),
            i <= sm.len(),
            parts_ge(sa, sm) == parts_ge(sa.skip(i as int), sm.skip(i as int)),
        decreases sa.len() - i,
    {
        assert(sa.skip(i as int)[0] == sa[i as int]);
        assert(sm.skip(i as int)[0] == sm[i as int]);
        if a[i] > m[i] {
            return true;
        }
        if a[i] < m[i] {
            return false;
        }
        assert(sa.skip(i as int).drop_first() =~= sa.skip(i + 1));
        assert(sm.skip(i as int).drop_first() =~= sm.skip(i + 1));
        i = i + 1;
    }
    a.len() >= m.len()
}


proof fn lemma_parts_ge_reflexive(a: Seq<u32>)
    ensures
        parts_ge(a, a),
    decreases a.len(),
{
    if a.len() > 0 {
        lemma_parts_ge_reflexive(a.drop_first());
    }
}

proof fn lemma_parts_ge_total(a: Seq<u32>, b: Seq<u32>)
    ensures
        parts_ge(a, b) || parts_ge(b, a),
    decreases a.len(),
{
    if a.len() > 0 && b.len() > 0 && a[0] == b[0] {
        lemma_parts_ge_total(a.drop_first(), b.drop_first());
    }
}

proof fn lemma_parts_ge_transitive(a: Seq<u32>, b: Seq<u32>, c: Seq<u32>)
    requires
        parts_ge(a, b),
        parts_ge(b, c),
    ensures
        parts_ge(a, c),
    decreases a.len(),
{
    if a.len() > 0 && b.len() > 0 && c.len() > 0 && a[0] == b[0] && b[0] == c[0] {
        lemma_parts_ge_transitive(a.drop_first(), b.drop_first(), c.drop_first());
    }
}

proof fn lemma_parts_ge_antisymmetric(a: Seq<u32>, b: Seq<u32>)
    requires
        parts_ge(a, b),
        parts_ge(b, a),
    ensures
        a == b,
    decreases a.len(),
{
    if a.len() > 0 && b.len() > 0 {
        lemma_parts_ge_antisymmetric(a.drop_first(), b.drop_first());
        assert(a =~= seq![a[0]] + a.drop_first());
        assert(b =~= seq![b[0]] + b.drop_first());
    } else {
        assert(a =~= b);
    }
}

/// A version satisfies itself as its own minimum.
pub proof fn lemma_satisfies_reflexive(v: Seq<char>)
    ensures
        satisfies(v, v),
{
    lemma_parts_ge_reflexive(version_parts(v));
}

/// Of any two versions, one satisfies the other as a minimum.
pub proof fn lemma_satisfies_total(a: Seq<char>, b: Seq<char>)
    ensures
        satisfies(a, b) || satisfies(b, a),
{
    lemma_parts_ge_total(version_parts(a), version_parts(b));
}

/// A version that satisfies a minimum satisfies every lower minimum too.
pub proof fn lemma_satisfies_transitive(a: Seq<char>, b: Seq<char>, c: Seq<char>)
    requires
        satisfies(a, b),
        satisfies(b, c),
    ensures
        satisfies(a, c),
{
    lemma_parts_ge_transitive(version_parts(a), version_parts(b), version_parts(c));
}

/// Two versions that satisfy each other have the same numbers.
pub proof fn lemma_satisfies_antisymmetric(a: Seq<char>, b: Seq<char>)
    requires
        satisfies(a, b),
        satisfies(b, a),
    ensures
        version_parts(a) == version_parts(b),
{
    lemma_parts_ge_antisymmetric(version_parts(a), version_parts(b));
}


proof fn lemma_first_digit(s: Seq<char>, i: int)
    requires
        0 <= i <= s.len(),
    ensures
        i <= first_digit(s, i) <= s.len(),
        first_digit(s, i) < s.len() ==> is_digit(s[first_digit(s, i)]),
        forall|k: int| i <= k < first_digit(s, i) ==> !is_digit(s[k]),
    decreases s.len() - i,
{
    if i < s.len() && !is_digit(s[i]) {
        lemma_first_digit(s, i + 1);
    }
}

proof fn lemma_version_run_end(s: Seq<char>, i: int)
    requires
        0 <= i <= s.len(),
    ensures
        i <= version_run_end(s, i) <= s.len(),
        forall|k: int| i <= k < version_run_end(s, i) ==> is_digit(s[k]) || s[k] == '.',
        version_run_end(s, i) < s.len() ==> !(is_digit(s[version_run_end(s, i)]) || s[version_run_end(
            s,
            i,
        )] == '.'),
    decreases s.len() - i,
{
    if i < s.len() && (is_digit(s[i]) || s[i] == '.') {
        lemma_version_run_end(s, i + 1);
    }
}

/// What `extract_version` finds is a piece of the text that starts with a
/// digit and holds only digits and dots; it finds nothing exactly when the
/// text holds no digit.
pub proof fn lemma_extracted_version_shape(s: Seq<char>)
    ensures
        extracted_version(s) is None <==> (forall|k: int| 0 <= k < s.len() ==> !is_digit(s[k])),
        extracted_version(s) matches Some(v) ==> {
            &&& v.len() > 0
            &&& is_digit(v[0])
            &&& forall|k: int| 0 <= k < v.len() ==> is_digit(v[k]) || v[k] == '.'
            &&& exists|i: int| 0 <= i && i + v.len() <= s.len() && #[trigger] s.subrange(i, i + v.len()) == v
        },
{
    lemma_first_digit(s, 0);
    let start = first_digit(s, 0);
    if start < s.len() {
        lemma_version_run_end(s, start);
        lemma_version_run_end(s, start + 1);
        let v = s.subrange(start, version_run_end(s, start));
        assert(version_run_end(s, start) > start);
        assert forall|k: int| 0 <= k < v.len() implies is_digit(v[k]) || v[k] == '.' by {
            assert(v[k] == s[start + k]);
        }
        assert(is_digit(v[0]));
        assert(s.subrange(start, start + v.len()) == v);
    }
}


/// The version number in the standard output of `<command> --version`.
pub fn version_from_output(stdout: &[u8]) -> (r: Option<String>)
    ensures
        r is Some <==> extracted_version(lossy_utf8(stdout@)) is Some,
        r matches Some(v) ==> v@ == extracted_version(lossy_utf8(stdout@))->0,
{
    let text = utf8_lossy(stdout);
    extract_version(text.as_str())
}

/// The minimum version in a requirement such as `>= 22`: the text after a
/// leading `>= `, or the whole requirement when it has no such prefix.
pub open spec fn minimum_of(requirement: Seq<char>) -> Seq<char> {
    if starts_with(requirement, ">= "@) {
        requirement.skip(">= "@.len() as int)
    } else {
        requirement
    }
}

/// The minimum version in `requirement` (see `minimum_of`).
pub fn requirement_minimum(requirement: &str) -> (r: &str)
    ensures
        r@ == minimum_of(requirement@),
{
    match strip_prefix(requirement, ">= ") {
        Some(rest) => rest,
        None => requirement,
    }
}

/// The finding for `command`, whose requirement is `requirement`, given the
/// version found in its output (none when no version could be determined).
pub open spec fn version_finding(
    command: Seq<char>,
    requirement: Seq<char>,
    found: Option<Seq<char>>,
) -> (Level, Seq<char>) {
    let minimum = minimum_of(requirement);
    match found {
        Some(v) => if satisfies(v, minimum) {
            (Level::Pass, command + " "@ + v + " (>= "@ + minimum + ")"@)
        } else {
            (Level::Error, command + " "@ + v + " is below minimum "@ + minimum)
        },
        None => (Level::Warn, command + ": could not determine version"@),
    }
}

/// The version found in the output of a command that could be run (`Some`
/// with its standard output) or not (`None`).
pub open spec fn found_version(output: Option<Seq<u8>>) -> Option<Seq<char>> {
    match output {
        Some(bytes) => extracted_version(lossy_utf8(bytes)),
        None => None,
    }
}

/// The finding for one command.
pub fn version_diagnostic(command: &str, requirement: &str, found: Option<String>) -> (d: Diagnostic)
    ensures
        d.view_parts() == version_finding(
            command@,
            requirement@,
            match found {
                Some(v) => Some(v@),
                None => None,
            },
        ),
{
    let minimum = requirement_minimum(requirement);
    match found {
        Some(v) => {
            if version_satisfies(v.as_str(), minimum) {
                let mut m = join2(command, " ");
                m.append(v.as_str());
                m.append(" (>= ");
                m.append(minimum);
                m.append(")");
                Diagnostic { level: Level::Pass, message: m }
            } else {
                let mut m = join2(command, " ");
                m.append(v.as_str());
                m.append(" is below minimum ");
                m.append(minimum);
                Diagnostic { level: Level::Error, message: m }
            }
        },
        None => Diagnostic { level: Level::Warn, message: join2(command, ": could not determine version") },
    }
}

/// Checks the versions of the configured commands.
pub struct VersionCheck {
    /// command -> requirement such as `>= X.Y`
    versions: StringMap,
}

impl VersionCheck {
    /// The configured commands and their requirements, in increasing command order.
    pub closed spec fn requirements(&self) -> Seq<(Seq<char>, Seq<char>)> {
        self.versions@
    }

    pub fn new(versions: StringMap) -> (c: Self)
        ensures
            c.requirements() == versions@,
    {
        Self { versions }
    }

    /// The number of configured commands.
    pub fn len(&self) -> (n: usize)
        ensures
            n == self.requirements().len(),
    {
        self.versions.len()
    }

    /// The command at `i`, to be run with `--version`.
    pub fn command(&self, i: usize) -> (c: &str)
        requires
            i < self.requirements().len(),
        ensures
            c@ == self.requirements()[i as int].0,
    {
        self.versions.key(i)
    }

    /// The findings, one per command in order, given the standard output of
    /// each `<command> --version` (`None` where the command could not be run).
    pub fn diagnose(&self, outputs: &Vec<Option<Vec<u8>>>) -> (r: Vec<Diagnostic>)
        requires
            outputs@.len() == self.requirements().len(),
        ensures
            r@.len() == outputs@.len(),
            forall|i: int|
                0 <= i < r@.len() ==> #[trigger] r@[i].view_parts() == version_finding(
                    self.requirements()[i].0,
                    self.requirements()[i].1,
                    found_version(
                        match outputs@[i] {
                            Some(b) => Some(b@),
                            None => None,
                        },
                    ),
                ),
    {
        let n = self.versions.len();
        let mut r: Vec<Diagnostic> = Vec::new();
        let mut i: usize = 0;
        while i < n
            invariant
                n == self.requirements().len(),
                outputs@.len() == n,
                i <= n,
                r@.len() == i,
                forall|j: int|
                    0 <= j < i ==> #[trigger] r@[j].view_parts() == version_finding(
                        self.requirements()[j].0,
                        self.requirements()[j].1,
                        found_version(
                            match outputs@[j] {
                                Some(b) => Some(b@),
                                None => None,
                            },
                        ),
                    ),
            decreases n - i,
        {
            let found = match &outputs[i] {
                Some(b) => version_from_output(b.as_slice()),
                None => None,
            };
            r.push(version_diagnostic(self.versions.key(i), self.versions.value(i), found));
            i = i + 1;
        }
        r
    }
}

impl Check for VersionCheck {
    fn name(&self) -> (r: &str)
        ensures
            r@ == "version"@,
    {
        "version"
    }
}


/// The version found is the first run of digits and dots in the text: it
/// lies at `start`, no digit comes before it, it begins with a digit, it
/// holds only digits and dots, and it stops at the end of the text or at a
/// character that is neither a digit nor a dot.
pub proof fn lemma_extracted_version_is_first_run(s: Seq<char>, v: Seq<char>) -> (start: int)
    requires
        extracted_version(s) == Some(v),
    ensures
        0 <= start,
        start + v.len() <= s.len(),
        s.subrange(start, start + v.len()) == v,
        forall|k: int| 0 <= k < start ==> !is_digit(s[k]),
        is_digit(s[start]),
        forall|k: int| start <= k < start + v.len() ==> is_digit(s[k]) || s[k] == '.',
        start + v.len() == s.len() || !(is_digit(s[start + v.len()]) || s[start + v.len()] == '.'),
{
    lemma_first_digit(s, 0);
    let start = first_digit(s, 0);
    lemma_version_run_end(s, start);
    start
}

/// At the first place where two lists of version numbers differ, the larger
/// number decides.
pub proof fn lemma_parts_ge_first_difference(a: Seq<u32>, m: Seq<u32>, i: int)
    requires
        0 <= i < a.len(),
        i < m.len(),
        a.take(i) == m.take(i),
        a[i] != m[i],
    ensures
        parts_ge(a, m) == (a[i] > m[i]),
    decreases i,
{
    if i > 0 {
        assert(a[0] == a.take(i)[0]);
        assert(m[0] == m.take(i)[0]);
        assert(a.drop_first().take(i - 1) =~= a.take(i).drop_first());
        assert(m.drop_first().take(i - 1) =~= m.take(i).drop_first());
        lemma_parts_ge_first_difference(a.drop_first(), m.drop_first(), i - 1);
    }
}

/// When the numbers agree as far as the shorter list goes, the longer list
/// is the larger one, and equal lists satisfy each other.
pub proof fn lemma_parts_ge_common_prefix(a: Seq<u32>, m: Seq<u32>)
    requires
        a.len() >= m.len() ==> a.take(m.len() as int) == m,
        a.len() < m.len() ==> m.take(a.len() as int) == a,
    ensures
        parts_ge(a, m) == (a.len() >= m.len()),
    decreases a.len(),
{
    if a.len() > 0 && m.len() > 0 {
        if a.len() >= m.len() {
            assert(a[0] == a.take(m.len() as int)[0]);
            assert(a.drop_first().take(m.len() - 1) =~= a.take(m.len() as int).drop_first());
        } else {
            assert(m[0] == m.take(a.len() as int)[0]);
            assert(m.drop_first().take(a.len() - 1) =~= m.take(a.len() as int).drop_first());
        }
        lemma_parts_ge_common_prefix(a.drop_first(), m.drop_first());
    }
}

/// The finding for a command: a warning when no version was found; when one
/// was, it passes exactly when its numbers reach those of the minimum after
/// `>= ` (compared part by part, see `parts_ge`), and is an error otherwise,
/// with the messages of each case.
pub proof fn lemma_version_finding_levels(
    command: Seq<char>,
    requirement: Seq<char>,
    found: Option<Seq<char>>,
)
    ensures
        found is None ==> version_finding(command, requirement, found) == (
            Level::Warn,
            command + ": could not determine version"@,
        ),
        found matches Some(v) ==> {
            let minimum = minimum_of(requirement);
            let reaches = parts_ge(version_parts(v), version_parts(minimum));
            &&& reaches == satisfies(v, minimum)
            &&& version_finding(command, requirement, found).0 == Level::Pass <==> reaches
            &&& version_finding(command, requirement, found).0 == Level::Error <==> !reaches
            &&& reaches ==> version_finding(command, requirement, found).1 == command + " "@ + v
                + " (>= "@ + minimum + ")"@
            &&& !reaches ==> version_finding(command, requirement, found).1 == command + " "@ + v
                + " is below minimum "@ + minimum
        },
{
}


/// The number that a piece between dots contributes: its `u32` value, or
/// nothing when it does not read as one.
pub open spec fn piece_number(piece: Seq<char>) -> Seq<u32> {
    match parse_u32(piece) {
        Some(x) => seq![x],
        None => Seq::empty(),
    }
}

proof fn lemma_dot_index_no_dot(a: Seq<char>, rest: Seq<char>)
    requires
        forall|k: int| 0 <= k < a.len() ==> a[k] != '.',
        rest.len() == 0 || rest[0] == '.',
    ensures
        dot_index(a + rest) == a.len(),
    decreases a.len(),
{
    if a.len() > 0 {
        assert((a + rest)[0] == a[0]);
        assert((a + rest).drop_first() =~= a.drop_first() + rest);
        lemma_dot_index_no_dot(a.drop_first(), rest);
    } else {
        assert(a + rest =~= rest);
    }
}

/// Reading a version goes piece by piece: a text without dots gives the
/// number of that one piece, and a piece followed by a dot and more text
/// gives that piece's number, then the numbers of the rest.
pub proof fn lemma_version_parts_pieces(a: Seq<char>, b: Seq<char>)
    requires
        forall|k: int| 0 <= k < a.len() ==> a[k] != '.',
    ensures
        version_parts(a) == piece_number(a),
        version_parts(a + seq!['.'] + b) == piece_number(a) + version_parts(b),
{
    lemma_dot_index_no_dot(a, Seq::empty());
    assert(a + Seq::<char>::empty() =~= a);
    assert(a.take(a.len() as int) =~= a);
    let t = a + seq!['.'] + b;
    assert(t =~= a + (seq!['.'] + b));
    lemma_dot_index_no_dot(a, seq!['.'] + b);
    assert(t.take(a.len() as int) =~= a);
    assert(t.skip(a.len() + 1 as int) =~= b);
}

} // verus!

//! Semantic versions: the data type, its spec-level model, the canonical
//! rendering, and the parser for the version sub-grammar of the encoding.
//!
//! A version renders as `major.minor.patch`, followed by `-pre` when a
//! pre-release tag is present and `+build` when build metadata is present.
//! The numeric components are decimal numerals without leading zeros; the
//! suffixes are dot-separated identifiers over letters, digits and `-`, where
//! an all-digit pre-release identifier must not have a leading zero.

use vstd::prelude::*;

use crate::text::{has_idx, least_idx, least_idx_at, lemma_least_idx_unique};

verus! {

/// Spec-level model of a semantic version: the three numeric components and
/// the pre-release and build-metadata suffixes (empty when absent).
#[verifier::ext_equal]
pub struct VersionView {
    pub major: u64,
    pub minor: u64,
    pub patch: u64,
    pub pre: Seq<char>,
    pub build: Seq<char>,
}

/// A semantic version: `major.minor.patch`, an optional pre-release tag and
/// optional build metadata.  An empty `pre` or `build` string means the
/// suffix is absent.
#[derive(Debug, Clone, PartialEq, Eq)]
pub struct Version {
    pub major: u64,
    pub minor: u64,
    pub patch: u64,
    pub pre: String,
    pub build: String,
}

impl View for Version {
    type V = VersionView;

    open spec fn view(&self) -> VersionView {
        VersionView {
            major: self.major,
            minor: self.minor,
            patch: self.patch,
            pre: self.pre@,
            build: self.build@,
        }
    }
}

/// Reasons a version string is rejected.
#[derive(Debug, Clone, Copy, PartialEq, Eq)]
pub enum VersionError {
    /// The `major.minor.patch` part is not three dot-separated decimal
    /// numerals without leading zeros.
    MalformedCore,
    /// A numeric component does not fit in 64 bits.
    NumberOverflow,
    /// The pre-release tag after `-` is not a dot-separated sequence of
    /// identifiers, or an all-digit identifier has a leading zero.
    MalformedPrerelease,
    /// The build metadata after `+` is not a dot-separated sequence of
    /// identifiers.
    MalformedBuild,
}

// ---------------------------------------------------------------------------
// Character classes and decimal numerals
// ---------------------------------------------------------------------------

pub open spec fn is_digit(c: char) -> bool {
    '0' <= c && c <= '9'
}

/// Characters allowed in pre-release and build identifiers.
pub open spec fn is_ident_char(c: char) -> bool {
    is_digit(c) || ('a' <= c && c <= 'z') || ('A' <= c && c <= 'Z') || c == '-'
}

pub open spec fn digit_val(c: char) -> int {
    c as int - '0' as int
}

pub open spec fn digit_char(d: int) -> char {
    if d == 0 {
        '0'
    } else if d == 1 {
        '1'
    } else if d == 2 {
        '2'
    } else if d == 3 {
        '3'
    } else if d == 4 {
        '4'
    } else if d == 5 {
        '5'
    } else if d == 6 {
        '6'
    } else if d == 7 {
        '7'
    } else if d == 8 {
        '8'
    } else {
        '9'
    }
}

/// The decimal numeral of a non-negative integer, without leading zeros.
pub open spec fn dec_str(n: int) -> Seq<char>
    recommends
        n >= 0,
    decreases n,
{
    if n <= 9 {
        seq![digit_char(n)]
    } else {
        dec_str(n / 10).push(digit_char(n % 10))
    }
}

pub open spec fn is_digits(s: Seq<char>) -> bool {
    forall|i: int| 0 <= i < s.len() ==> is_digit(#[trigger] s[i])
}

/// The value of a digit string.
pub open spec fn digits_val(s: Seq<char>) -> int
    decreases s.len(),
{
    if s.len() == 0 {
        0
    } else {
        digits_val(s.drop_last()) * 10 + digit_val(s.last())
    }
}

/// A decimal numeral: non-empty, all digits, no leading zero.
pub open spec fn valid_numeral(s: Seq<char>) -> bool {
    s.len() > 0 && is_digits(s) && (s.len() == 1 || s[0] != '0')
}

/// Every character of `dec_str(n)` is a digit, and the first is not `'0'`
/// unless the numeral is just `"0"`.
pub proof fn lemma_dec_str_shape(n: int)
    requires
        n >= 0,
    ensures
        valid_numeral(dec_str(n)),
        digits_val(dec_str(n)) == n,
    decreases n,
{
    if n <= 9 {
        let s = seq![digit_char(n)];
        assert(dec_str(n) =~= s);
        assert(s.drop_last() =~= Seq::<char>::empty());
        assert(s.last() == digit_char(n));
        assert(digits_val(s) == digits_val(s.drop_last()) * 10 + digit_val(s.last()));
        assert(digits_val(Seq::<char>::empty()) == 0);
        assert(digit_val(digit_char(n)) == n);
        assert(is_digit(digit_char(n)));
        assert(is_digits(s)) by {
            assert forall|i: int| 0 <= i < s.len() implies is_digit(#[trigger] s[i]) by {
                assert(s[i] == digit_char(n));
            }
        }
    } else {
        lemma_dec_str_shape(n / 10);
        let p = dec_str(n / 10);
        let w = p.push(digit_char(n % 10));
        assert(w.drop_last() =~= p);
        assert(w.last() == digit_char(n % 10));
        assert(digits_val(w) == digits_val(p) * 10 + digit_val(digit_char(n % 10)));
        assert(digit_val(digit_char(n % 10)) == n % 10);
        assert(digits_val(p) == n / 10);
        assert(n / 10 * 10 + n % 10 == n) by {
            vstd::arithmetic::div_mod::lemma_fundamental_div_mod(n, 10);
        }
        assert(w[0] == p[0]);
        assert(w[0] != '0') by {
            if p.len() == 1 {
                assert(p.drop_last() =~= Seq::<char>::empty());
                assert(digits_val(p.drop_last()) == 0);
                assert(p.last() == p[0]);
                assert(digits_val(p) == digit_val(p[0]));
                assert(n / 10 >= 1);
            }
        }
        assert(is_digits(w)) by {
            assert forall|i: int| 0 <= i < w.len() implies is_digit(#[trigger] w[i]) by {
                if i < p.len() {
                    assert(w[i] == p[i]);
                }
            }
        }
    }
}

// ---------------------------------------------------------------------------
// Pre-release and build suffixes
// ---------------------------------------------------------------------------

/// A pre-release identifier: non-empty, identifier characters only, and if it
/// is all digits it has no leading zero.
pub open spec fn pre_ident_ok(s: Seq<char>) -> bool {
    &&& s.len() > 0
    &&& forall|i: int| 0 <= i < s.len() ==> is_ident_char(#[trigger] s[i])
    &&& (is_digits(s) && s.len() > 1 ==> s[0] != '0')
}

/// A build identifier: non-empty, identifier characters only.
pub open spec fn build_ident_ok(s: Seq<char>) -> bool {
    s.len() > 0 && forall|i: int| 0 <= i < s.len() ==> is_ident_char(#[trigger] s[i])
}

/// Position of the first `'.'` in `s`.
pub open spec fn dot_split(s: Seq<char>) -> Option<int> {
    if has_idx(s.len() as int, |i: int| s[i] == '.') {
        Some(least_idx(s.len() as int, |i: int| s[i] == '.'))
    } else {
        None
    }
}

/// A valid pre-release tag: dot-separated pre-release identifiers.
pub open spec fn valid_pre(s: Seq<char>) -> bool
    decreases s.len(),
{
    match dot_split(s) {
        Some(d) => pre_ident_ok(s.subrange(0, d)) && valid_pre(
            s.subrange(d + 1, s.len() as int),
        ),
        None => pre_ident_ok(s),
    }
}

/// A valid build-metadata tag: dot-separated build identifiers.
pub open spec fn valid_build(s: Seq<char>) -> bool
    decreases s.len(),
{
    match dot_split(s) {
        Some(d) => build_ident_ok(s.subrange(0, d)) && valid_build(
            s.subrange(d + 1, s.len() as int),
        ),
        None => build_ident_ok(s),
    }
}

/// A well-formed version model: suffixes are either absent or valid.
pub open spec fn wf_version(v: VersionView) -> bool {
    &&& (v.pre.len() == 0 || valid_pre(v.pre))
    &&& (v.build.len() == 0 || valid_build(v.build))
}

// ---------------------------------------------------------------------------
// Canonical rendering
// ---------------------------------------------------------------------------

/// The canonical one-line form of a version.
pub open spec fn render_version(v: VersionView) -> Seq<char> {
    dec_str(v.major as int) + seq!['.'] + dec_str(v.minor as int) + seq!['.'] + dec_str(
        v.patch as int,
    ) + (if v.pre.len() > 0 {
        seq!['-'] + v.pre
    } else {
        Seq::<char>::empty()
    }) + (if v.build.len() > 0 {
        seq!['+'] + v.build
    } else {
        Seq::<char>::empty()
    })
}

impl Version {
    /// Build a version with the given numeric components and no suffixes.
    pub fn new(major: u64, minor: u64, patch: u64) -> (r: Version)
        ensures
            r@ == (VersionView {
                major,
                minor,
                patch,
                pre: Seq::<char>::empty(),
                build: Seq::<char>::empty(),
            }),
            wf_version(r@),
    {
        let r = Version { major, minor, patch, pre: String::new(), build: String::new() };
        proof {
            assert(r@ =~= VersionView {
                major,
                minor,
                patch,
                pre: Seq::<char>::empty(),
                build: Seq::<char>::empty(),
            });
        }
        r
    }

    /// Render this version in its canonical one-line form.
    pub fn to_version_string(&self) -> (r: String)
        ensures
            r@ == render_version(self@),
    {
        let mut r = u64_to_string(self.major);
        r.append(".");
        let minor_s = u64_to_string(self.minor);
        r.append(minor_s.as_str());
        r.append(".");
        let patch_s = u64_to_string(self.patch);
        r.append(patch_s.as_str());
        proof {
            reveal_strlit(".");
            assert("."@ =~= seq!['.']);
        }
        if !self.pre.as_str().is_empty() {
            r.append("-");
            r.append(self.pre.as_str());
            proof {
                reveal_strlit("-");
                assert("-"@ =~= seq!['-']);
            }
        }
        if !self.build.as_str().is_empty() {
            r.append("+");
            r.append(self.build.as_str());
            proof {
                reveal_strlit("+");
                assert("+"@ =~= seq!['+']);
            }
        }
        proof {
            assert(r@ =~= render_version(self@));
        }
        r
    }
}

/// A single decimal digit as a string slice.
fn digit_str(d: u64) -> (r: &'static str)
    requires
        d <= 9,
    ensures
        r@ == seq![digit_char(d as int)],
{
    proof {
        reveal_strlit("0");
        reveal_strlit("1");
        reveal_strlit("2");
        reveal_strlit("3");
        reveal_strlit("4");
        reveal_strlit("5");
        reveal_strlit("6");
        reveal_strlit("7");
        reveal_strlit("8");
        reveal_strlit("9");
    }
    let r: &'static str = if d == 0 {
        "0"
    } else if d == 1 {
        "1"
    } else if d == 2 {
        "2"
    } else if d == 3 {
        "3"
    } else if d == 4 {
        "4"
    } else if d == 5 {
        "5"
    } else if d == 6 {
        "6"
    } else if d == 7 {
        "7"
    } else if d == 8 {
        "8"
    } else {
        "9"
    };
    proof {
        assert(r@ =~= seq![digit_char(d as int)]);
    }
    r
}

/// The decimal numeral of `n`, without leading zeros.
pub fn u64_to_string(n: u64) -> (r: String)
    ensures
        r@ == dec_str(n as int),
    decreases n,
{
    if n <= 9 {
        let r = digit_str(n).to_owned();
        r
    } else {
        let mut r = u64_to_string(n / 10);
        r.append(digit_str(n % 10));
        proof {
            assert(r@ =~= dec_str(n as int));
        }
        r
    }
}


// ---------------------------------------------------------------------------
// Parsing
// ---------------------------------------------------------------------------

/// Index of the first `'-'` or `'+'` in `s`, or its length: the end of the
/// `major.minor.patch` part.
pub open spec fn sep_end(s: Seq<char>) -> int {
    if has_idx(s.len() as int, |i: int| s[i] == '-' || s[i] == '+') {
        least_idx(s.len() as int, |i: int| s[i] == '-' || s[i] == '+')
    } else {
        s.len() as int
    }
}

/// Index of the first `'+'` in `s`, or its length: where build metadata
/// starts.
pub open spec fn plus_idx(s: Seq<char>) -> int {
    if has_idx(s.len() as int, |i: int| s[i] == '+') {
        least_idx(s.len() as int, |i: int| s[i] == '+')
    } else {
        s.len() as int
    }
}

/// Read one numeric component.
pub open spec fn spec_num(s: Seq<char>) -> Result<u64, VersionError> {
    if !valid_numeral(s) {
        Err(VersionError::MalformedCore)
    } else if digits_val(s) > u64::MAX as int {
        Err(VersionError::NumberOverflow)
    } else {
        Ok(digits_val(s) as u64)
    }
}

/// Read the `major.minor.patch` part: exactly two dots separating three
/// numerals.
pub open spec fn spec_parse_core(c: Seq<char>) -> Result<(u64, u64, u64), VersionError> {
    match dot_split(c) {
        None => Err(VersionError::MalformedCore),
        Some(d1) => {
            let rest = c.subrange(d1 + 1, c.len() as int);
            match dot_split(rest) {
                None => Err(VersionError::MalformedCore),
                Some(d2) => {
                    match spec_num(c.subrange(0, d1)) {
                        Err(e) => Err(e),
                        Ok(ma) => match spec_num(rest.subrange(0, d2)) {
                            Err(e) => Err(e),
                            Ok(mi) => match spec_num(
                                rest.subrange(d2 + 1, rest.len() as int),
                            ) {
                                Err(e) => Err(e),
                                Ok(pa) => Ok((ma, mi, pa)),
                            },
                        },
                    }
                },
            }
        },
    }
}

/// What parsing a version string yields: the decomposition into core,
/// pre-release and build parts, each validated.
pub open spec fn spec_parse_version(s: Seq<char>) -> Result<VersionView, VersionError> {
    let ce = sep_end(s);
    match spec_parse_core(s.subrange(0, ce)) {
        Err(e) => Err(e),
        Ok(core) => {
            let pl = plus_idx(s);
            let has_pre = ce < s.len() && s[ce] == '-';
            let pre = if has_pre {
                s.subrange(ce + 1, pl)
            } else {
                Seq::<char>::empty()
            };
            let has_build = pl < s.len();
            let build = if has_build {
                s.subrange(pl + 1, s.len() as int)
            } else {
                Seq::<char>::empty()
            };
            if has_pre && !valid_pre(pre) {
                Err(VersionError::MalformedPrerelease)
            } else if has_build && !valid_build(build) {
                Err(VersionError::MalformedBuild)
            } else {
                Ok(VersionView { major: core.0, minor: core.1, patch: core.2, pre, build })
            }
        },
    }
}

/// The spec-level value of an executable parse result.
pub open spec fn version_result_view(r: Result<Version, VersionError>) -> Result<
    VersionView,
    VersionError,
> {
    match r {
        Ok(v) => Ok(v@),
        Err(e) => Err(e),
    }
}

/// Find the first position in `[from, to)` holding `c1` or `c2`.
fn find_char2(s: &str, from: usize, to: usize, c1: char, c2: char) -> (r: Option<usize>)
    requires
        from <= to <= s@.len(),
    ensures
        match r {
            Some(i) => from <= i < to && (s@[i as int] == c1 || s@[i as int] == c2) && (forall|
                j: int,
            |
                from <= j < i ==> !(#[trigger] s@[j] == c1 || s@[j] == c2)),
            None => forall|j: int| from <= j < to ==> !(#[trigger] s@[j] == c1 || s@[j] == c2),
        },
{
    let mut i: usize = from;
    while i < to
        invariant
            from <= i <= to <= s@.len(),
            forall|j: int| from <= j < i ==> !(#[trigger] s@[j] == c1 || s@[j] == c2),
        decreases to - i,
    {
        let c = s.get_char(i);
        if c == c1 || c == c2 {
            return Some(i);
        }
        i = i + 1;
    }
    None
}

pub proof fn lemma_digits_val_nonneg(s: Seq<char>)
    requires
        is_digits(s),
    ensures
        digits_val(s) >= 0,
    decreases s.len(),
{
    if s.len() > 0 {
        assert(is_digits(s.drop_last())) by {
            assert forall|i: int| 0 <= i < s.len() - 1 implies is_digit(
                #[trigger] s.drop_last()[i],
            ) by {
                assert(s.drop_last()[i] == s[i]);
            }
        }
        lemma_digits_val_nonneg(s.drop_last());
        assert(is_digit(s.last()));
    }
}

/// The value of a digit string grows (weakly) with each appended digit.
pub proof fn lemma_digits_val_take_step(s: Seq<char>, j: int)
    requires
        is_digits(s),
        0 <= j < s.len(),
    ensures
        digits_val(s.take(j + 1)) == digits_val(s.take(j)) * 10 + digit_val(s[j]),
        digits_val(s.take(j)) >= 0,
{
    assert(s.take(j + 1).drop_last() =~= s.take(j));
    assert(s.take(j + 1).last() == s[j]);
    assert(is_digits(s.take(j))) by {
        assert forall|i: int| 0 <= i < j implies is_digit(#[trigger] s.take(j)[i]) by {
            assert(s.take(j)[i] == s[i]);
        }
    }
    lemma_digits_val_nonneg(s.take(j));
}

/// A prefix of a digit string never has a larger value than the whole.
pub proof fn lemma_digits_val_prefix_le(s: Seq<char>, j: int)
    requires
        is_digits(s),
        0 <= j <= s.len(),
    ensures
        digits_val(s.take(j)) <= digits_val(s),
    decreases s.len() - j,
{
    if j == s.len() {
        assert(s.take(j) =~= s);
    } else {
        lemma_digits_val_take_step(s, j);
        assert(digits_val(s.take(j)) * 10 >= digits_val(s.take(j)));
        assert(is_digit(s[j]));
        lemma_digits_val_prefix_le(s, j + 1);
    }
}

/// Read the numeral in `s[from..to]`.
fn parse_numeral(s: &str, from: usize, to: usize) -> (r: Result<u64, VersionError>)
    requires
        from <= to <= s@.len(),
    ensures
        ({
            let sub = s@.subrange(from as int, to as int);
            match r {
                Ok(v) => valid_numeral(sub) && digits_val(sub) == v as int,
                Err(e) => (e == VersionError::MalformedCore && !valid_numeral(sub)) || (e
                    == VersionError::NumberOverflow && valid_numeral(sub) && digits_val(sub)
                    > u64::MAX as int),
            }
        }),
{
    let ghost sub = s@.subrange(from as int, to as int);
    if to == from {
        return Err(VersionError::MalformedCore);
    }
    let mut i: usize = from;
    while i < to
        invariant
            from <= i <= to <= s@.len(),
            forall|j: int| from <= j < i ==> is_digit(#[trigger] s@[j]),
        decreases to - i,
    {
        let c = s.get_char(i);
        if !('0' <= c && c <= '9') {
            proof {
                let sub2 = s@.subrange(from as int, to as int);
                assert(sub2[i - from] == s@[i as int]);
                assert(!is_digit(sub2[i - from]));
            }
            return Err(VersionError::MalformedCore);
        }
        i = i + 1;
    }
    proof {
        assert(is_digits(sub)) by {
            assert forall|j: int| 0 <= j < sub.len() implies is_digit(#[trigger] sub[j]) by {
                assert(sub[j] == s@[from + j]);
            }
        }
    }
    if to - from > 1 && s.get_char(from) == '0' {
        proof {
            assert(sub[0] == s@[from as int]);
        }
        return Err(VersionError::MalformedCore);
    }
    proof {
        assert(valid_numeral(sub)) by {
            assert(sub[0] == s@[from as int]);
        }
    }
    let mut acc: u64 = 0;
    let mut i: usize = from;
    while i < to
        invariant
            from <= i <= to <= s@.len(),
            is_digits(sub),
            valid_numeral(sub),
            sub == s@.subrange(from as int, to as int),
            acc as int == digits_val(sub.take(i - from)),
        decreases to - i,
    {
        let c = s.get_char(i);
        proof {
            assert(sub[i - from] == s@[i as int]);
            assert(is_digit(s@[i as int]));
        }
        let d: u64 = (c as u32 - 48) as u64;
        proof {
            assert('0' as int == 48);
            assert(d as int == digit_val(c));
            assert(0 <= d <= 9);
            lemma_digits_val_take_step(sub, i - from);
        }
        if acc > (u64::MAX - d) / 10 {
            proof {
                vstd::arithmetic::div_mod::lemma_fundamental_div_mod(
                    u64::MAX as int - d as int,
                    10,
                );
                assert(digits_val(sub.take(i - from + 1)) > u64::MAX as int);
                lemma_digits_val_prefix_le(sub, i - from + 1);
            }
            return Err(VersionError::NumberOverflow);
        }
        proof {
            vstd::arithmetic::div_mod::lemma_fundamental_div_mod(u64::MAX as int - d as int, 10);
        }
        acc = acc * 10 + d;
        i = i + 1;
    }
    proof {
        assert(sub.take(to - from) =~= sub);
    }
    Ok(acc)
}

/// Check one pre-release identifier, the characters `from..to` of `s`.
fn pre_segment_ok(s: &str, from: usize, to: usize) -> (b: bool)
    requires
        from <= to <= s@.len(),
    ensures
        b == pre_ident_ok(s@.subrange(from as int, to as int)),
{
    let ghost sub = s@.subrange(from as int, to as int);
    if to == from {
        return false;
    }
    let mut i: usize = from;
    let mut all_digits: bool = true;
    while i < to
        invariant
            from <= i <= to <= s@.len(),
            forall|j: int| from <= j < i ==> is_ident_char(#[trigger] s@[j]),
            all_digits <==> (forall|j: int| from <= j < i ==> is_digit(#[trigger] s@[j])),
        decreases to - i,
    {
        let c = s.get_char(i);
        if !(('0' <= c && c <= '9') || ('a' <= c && c <= 'z') || ('A' <= c && c <= 'Z') || c
            == '-') {
            proof {
                let sub2 = s@.subrange(from as int, to as int);
                assert(sub2[i - from] == s@[i as int]);
                assert(!is_ident_char(sub2[i - from]));
            }
            return false;
        }
        if !('0' <= c && c <= '9') {
            all_digits = false;
        }
        i = i + 1;
    }
    proof {
        assert forall|j: int| 0 <= j < sub.len() implies is_ident_char(#[trigger] sub[j]) by {
            assert(sub[j] == s@[from + j]);
        }
        if all_digits {
            assert forall|j: int| 0 <= j < sub.len() implies is_digit(#[trigger] sub[j]) by {
                assert(sub[j] == s@[from + j]);
            }
        } else {
            let w = choose|j: int| from <= j < to && !is_digit(#[trigger] s@[j]);
            assert(!is_digit(sub[w - from]));
        }
    }
    if all_digits && to - from > 1 && s.get_char(from) == '0' {
        proof {
            assert(sub[0] == s@[from as int]);
        }
        return false;
    }
    proof {
        assert(sub[0] == s@[from as int]);
    }
    true
}

/// Check one build identifier, the characters `from..to` of `s`.
fn build_segment_ok(s: &str, from: usize, to: usize) -> (b: bool)
    requires
        from <= to <= s@.len(),
    ensures
        b == build_ident_ok(s@.subrange(from as int, to as int)),
{
    let ghost sub = s@.subrange(from as int, to as int);
    if to == from {
        return false;
    }
    let mut i: usize = from;
    while i < to
        invariant
            from <= i <= to <= s@.len(),
            forall|j: int| from <= j < i ==> is_ident_char(#[trigger] s@[j]),
        decreases to - i,
    {
        let c = s.get_char(i);
        if !(('0' <= c && c <= '9') || ('a' <= c && c <= 'z') || ('A' <= c && c <= 'Z') || c
            == '-') {
            proof {
                let sub2 = s@.subrange(from as int, to as int);
                assert(sub2[i - from] == s@[i as int]);
                assert(!is_ident_char(sub2[i - from]));
            }
            return false;
        }
        i = i + 1;
    }
    proof {
        assert forall|j: int| 0 <= j < sub.len() implies is_ident_char(#[trigger] sub[j]) by {
            assert(sub[j] == s@[from + j]);
        }
    }
    true
}

/// Bridge an executable dot search over `[from, to)` of `s` to `dot_split` of
/// the corresponding subrange.
proof fn lemma_dot_split_found(s: Seq<char>, from: int, to: int, i: int)
    requires
        0 <= from <= to <= s.len(),
        from <= i < to,
        s[i] == '.',
        forall|j: int| from <= j < i ==> s[j] != '.',
    ensures
        dot_split(s.subrange(from, to)) == Some(i - from),
{
    let sub = s.subrange(from, to);
    let q = |k: int| sub[k] == '.';
    assert(sub[i - from] == s[i]);
    assert forall|j: int| 0 <= j < i - from implies !#[trigger] q(j) by {
        assert(sub[j] == s[from + j]);
    }
    assert(least_idx_at(sub.len() as int, q, i - from));
    lemma_least_idx_unique(sub.len() as int, q, i - from);
}

/// Bridge a failed executable dot search to `dot_split` of the subrange.
proof fn lemma_dot_split_none(s: Seq<char>, from: int, to: int)
    requires
        0 <= from <= to <= s.len(),
        forall|j: int| from <= j < to ==> s[j] != '.',
    ensures
        dot_split(s.subrange(from, to)) is None,
{
    let sub = s.subrange(from, to);
    let q = |k: int| sub[k] == '.';
    if has_idx(sub.len() as int, q) {
        let l = least_idx(sub.len() as int, q);
        assert(least_idx_at(sub.len() as int, q, l));
        assert(sub[l] == s[from + l]);
    }
}

/// Check a pre-release tag.
fn check_pre(s: &str, from: usize, to: usize) -> (b: bool)
    requires
        from <= to <= s@.len(),
    ensures
        b == valid_pre(s@.subrange(from as int, to as int)),
{
    let mut cur: usize = from;
    loop
        invariant
            from <= cur <= to <= s@.len(),
            valid_pre(s@.subrange(from as int, to as int)) == valid_pre(
                s@.subrange(cur as int, to as int),
            ),
        decreases to - cur,
    {
        let d = find_char2(s, cur, to, '.', '.');
        let ghost sub = s@.subrange(cur as int, to as int);
        match d {
            Some(i) => {
                proof {
                    lemma_dot_split_found(s@, cur as int, to as int, i as int);
                    assert(sub.subrange(0, i - cur) =~= s@.subrange(cur as int, i as int));
                    assert(sub.subrange(i - cur + 1, sub.len() as int) =~= s@.subrange(
                        i + 1,
                        to as int,
                    ));
                }
                if !pre_segment_ok(s, cur, i) {
                    return false;
                }
                cur = i + 1;
            },
            None => {
                proof {
                    lemma_dot_split_none(s@, cur as int, to as int);
                }
                let r = pre_segment_ok(s, cur, to);
                return r;
            },
        }
    }
}

/// Check a build-metadata tag.
fn check_build(s: &str, from: usize, to: usize) -> (b: bool)
    requires
        from <= to <= s@.len(),
    ensures
        b == valid_build(s@.subrange(from as int, to as int)),
{
    let mut cur: usize = from;
    loop
        invariant
            from <= cur <= to <= s@.len(),
            valid_build(s@.subrange(from as int, to as int)) == valid_build(
                s@.subrange(cur as int, to as int),
            ),
        decreases to - cur,
    {
        let d = find_char2(s, cur, to, '.', '.');
        let ghost sub = s@.subrange(cur as int, to as int);
        match d {
            Some(i) => {
                proof {
                    lemma_dot_split_found(s@, cur as int, to as int, i as int);
                    assert(sub.subrange(0, i - cur) =~= s@.subrange(cur as int, i as int));
                    assert(sub.subrange(i - cur + 1, sub.len() as int) =~= s@.subrange(
                        i + 1,
                        to as int,
                    ));
                }
                if !build_segment_ok(s, cur, i) {
                    return false;
                }
                cur = i + 1;
            },
            None => {
                proof {
                    lemma_dot_split_none(s@, cur as int, to as int);
                }
                let r = build_segment_ok(s, cur, to);
                return r;
            },
        }
    }
}

/// Parse a version string: the inverse of `to_version_string` on canonical
/// input, rejecting anything outside the version grammar.
#[verifier::rlimit(100)]
pub fn parse_version(s: &str) -> (r: Result<Version, VersionError>)
    ensures
        version_result_view(r) == spec_parse_version(s@),
{
    let n = s.unicode_len();
    let ce = match find_char2(s, 0, n, '-', '+') {
        Some(i) => {
            proof {
                let q = |k: int| s@[k] == '-' || s@[k] == '+';
                assert(least_idx_at(s@.len() as int, q, i as int));
                lemma_least_idx_unique(s@.len() as int, q, i as int);
            }
            i
        },
        None => {
            proof {
                let q = |k: int| s@[k] == '-' || s@[k] == '+';
                if has_idx(s@.len() as int, q) {
                    let l = least_idx(s@.len() as int, q);
                    assert(least_idx_at(s@.len() as int, q, l));
                }
            }
            n
        },
    };
    proof {
        assert(ce as int == sep_end(s@));
    }
    let ghost core = s@.subrange(0, ce as int);
    // the major.minor.patch part
    let d1 = match find_char2(s, 0, ce, '.', '.') {
        Some(i) => {
            proof {
                lemma_dot_split_found(s@, 0, ce as int, i as int);
            }
            i
        },
        None => {
            proof {
                lemma_dot_split_none(s@, 0, ce as int);
            }
            return Err(VersionError::MalformedCore);
        },
    };
    let ghost rest = core.subrange(d1 + 1, core.len() as int);
    proof {
        assert(rest =~= s@.subrange(d1 + 1, ce as int));
    }
    let d2 = match find_char2(s, d1 + 1, ce, '.', '.') {
        Some(i) => {
            proof {
                lemma_dot_split_found(s@, d1 + 1, ce as int, i as int);
            }
            i
        },
        None => {
            proof {
                lemma_dot_split_none(s@, d1 + 1, ce as int);
            }
            return Err(VersionError::MalformedCore);
        },
    };
    let major = match parse_numeral(s, 0, d1) {
        Ok(v) => v,
        Err(e) => {
            proof {
                assert(core.subrange(0, d1 as int) =~= s@.subrange(0, d1 as int));
            }
            return Err(e);
        },
    };
    let minor = match parse_numeral(s, d1 + 1, d2) {
        Ok(v) => v,
        Err(e) => {
            proof {
                assert(core.subrange(0, d1 as int) =~= s@.subrange(0, d1 as int));
                assert(rest.subrange(0, d2 - d1 - 1) =~= s@.subrange(d1 + 1, d2 as int));
            }
            return Err(e);
        },
    };
    let patch = match parse_numeral(s, d2 + 1, ce) {
        Ok(v) => v,
        Err(e) => {
            proof {
                assert(core.subrange(0, d1 as int) =~= s@.subrange(0, d1 as int));
                assert(rest.subrange(0, d2 - d1 - 1) =~= s@.subrange(d1 + 1, d2 as int));
                assert(rest.subrange(d2 - d1, rest.len() as int) =~= s@.subrange(
                    d2 + 1,
                    ce as int,
                ));
            }
            return Err(e);
        },
    };
    proof {
        assert(core.subrange(0, d1 as int) =~= s@.subrange(0, d1 as int));
        assert(rest.subrange(0, d2 - d1 - 1) =~= s@.subrange(d1 + 1, d2 as int));
        assert(rest.subrange(d2 - d1, rest.len() as int) =~= s@.subrange(d2 + 1, ce as int));
        assert(spec_parse_core(core) == Ok::<(u64, u64, u64), VersionError>(
            (major, minor, patch),
        ));
    }
    // the optional suffixes
    let pl = match find_char2(s, 0, n, '+', '+') {
        Some(i) => {
            proof {
                let q = |k: int| s@[k] == '+';
                assert(least_idx_at(s@.len() as int, q, i as int));
                lemma_least_idx_unique(s@.len() as int, q, i as int);
            }
            i
        },
        None => {
            proof {
                let q = |k: int| s@[k] == '+';
                if has_idx(s@.len() as int, q) {
                    let l = least_idx(s@.len() as int, q);
                    assert(least_idx_at(s@.len() as int, q, l));
                }
            }
            n
        },
    };
    proof {
        assert(pl as int == plus_idx(s@));
        if ce < n && s@[ce as int] == '-' {
            assert(pl != ce);
            if pl < ce {
                let q = |k: int| s@[k] == '-' || s@[k] == '+';
                assert(q(pl as int));
            }
        }
    }
    let has_pre = ce < n && s.get_char(ce) == '-';
    let pre: String = if has_pre {
        let p = s.substring_char(ce + 1, pl).to_owned();
        if !check_pre(s, ce + 1, pl) {
            return Err(VersionError::MalformedPrerelease);
        }
        p
    } else {
        String::new()
    };
    let has_build = pl < n;
    let build: String = if has_build {
        let b = s.substring_char(pl + 1, n).to_owned();
        if !check_build(s, pl + 1, n) {
            return Err(VersionError::MalformedBuild);
        }
        b
    } else {
        String::new()
    };
    proof {
        if has_pre {
            assert(pre@.len() > 0 ==> valid_pre(pre@));
            assert(valid_pre(s@.subrange(ce + 1, pl as int)));
        }
    }
    let v = Version { major, minor, patch, pre, build };
    proof {
        let sv = spec_parse_version(s@);
        assert(sv is Ok);
        assert(v@ =~= sv->Ok_0);
    }
    Ok(v)
}


// ---------------------------------------------------------------------------
// Round trip: parsing a canonical rendering gives back the same version
// ---------------------------------------------------------------------------

/// Characters that can appear in a rendered version.
pub open spec fn version_char(c: char) -> bool {
    is_ident_char(c) || c == '.' || c == '+'
}

/// Pre-release tags hold only identifier characters and dots.
pub proof fn lemma_pre_chars(s: Seq<char>)
    requires
        valid_pre(s),
    ensures
        forall|i: int| 0 <= i < s.len() ==> is_ident_char(#[trigger] s[i]) || s[i] == '.',
    decreases s.len(),
{
    match dot_split(s) {
        Some(d) => {
            let q = |i: int| s[i] == '.';
            assert(least_idx_at(s.len() as int, q, d));
            let head = s.subrange(0, d);
            let tail = s.subrange(d + 1, s.len() as int);
            lemma_pre_chars(tail);
            assert forall|i: int| 0 <= i < s.len() implies is_ident_char(#[trigger] s[i]) || s[i]
                == '.' by {
                if i < d {
                    assert(head[i] == s[i]);
                    assert(is_ident_char(head[i]));
                } else if i > d {
                    assert(tail[i - d - 1] == s[i]);
                }
            }
        },
        None => {},
    }
}

/// Build tags hold only identifier characters and dots.
pub proof fn lemma_build_chars(s: Seq<char>)
    requires
        valid_build(s),
    ensures
        forall|i: int| 0 <= i < s.len() ==> is_ident_char(#[trigger] s[i]) || s[i] == '.',
    decreases s.len(),
{
    match dot_split(s) {
        Some(d) => {
            let q = |i: int| s[i] == '.';
            assert(least_idx_at(s.len() as int, q, d));
            let head = s.subrange(0, d);
            let tail = s.subrange(d + 1, s.len() as int);
            lemma_build_chars(tail);
            assert forall|i: int| 0 <= i < s.len() implies is_ident_char(#[trigger] s[i]) || s[i]
                == '.' by {
                if i < d {
                    assert(head[i] == s[i]);
                    assert(is_ident_char(head[i]));
                } else if i > d {
                    assert(tail[i - d - 1] == s[i]);
                }
            }
        },
        None => {},
    }
}

/// Every character of a well-formed version's rendering is a version
/// character; in particular none is a structural delimiter, whitespace, or
/// `'='`.
pub proof fn lemma_version_chars(v: VersionView)
    requires
        wf_version(v),
    ensures
        forall|i: int|
            0 <= i < render_version(v).len() ==> version_char(#[trigger] render_version(v)[i]),
        forall|i: int|
            0 <= i < render_version(v).len() ==> !crate::text::is_delim(
                #[trigger] render_version(v)[i],
            ) && !crate::text::is_space(render_version(v)[i]) && render_version(v)[i] != '=',
{
    let a = dec_str(v.major as int);
    let b = dec_str(v.minor as int);
    let c = dec_str(v.patch as int);
    lemma_dec_str_shape(v.major as int);
    lemma_dec_str_shape(v.minor as int);
    lemma_dec_str_shape(v.patch as int);
    if v.pre.len() > 0 {
        lemma_pre_chars(v.pre);
    }
    if v.build.len() > 0 {
        lemma_build_chars(v.build);
    }
    let r = render_version(v);
    assert forall|i: int| 0 <= i < r.len() implies version_char(#[trigger] r[i]) by {
        let la = a.len() as int;
        let lb = b.len() as int;
        let lc = c.len() as int;
        let core_len = la + 1 + lb + 1 + lc;
        let pre_len: int = if v.pre.len() > 0 { 1 + v.pre.len() as int } else { 0 };
        if i < la {
            assert(r[i] == a[i]);
        } else if i == la {
            assert(r[i] == '.');
        } else if i < la + 1 + lb {
            assert(r[i] == b[i - la - 1]);
        } else if i == la + 1 + lb {
            assert(r[i] == '.');
        } else if i < core_len {
            assert(r[i] == c[i - (la + 1 + lb + 1)]);
        } else if pre_len > 0 && i == core_len {
            assert(r[i] == '-');
        } else if pre_len > 0 && i < core_len + pre_len {
            assert(r[i] == v.pre[i - core_len - 1]);
        } else if i == core_len + pre_len {
            assert(r[i] == '+');
        } else {
            assert(r[i] == v.build[i - (core_len + pre_len) - 1]);
        }
    }
}

/// Parsing the canonical rendering of a well-formed version yields that very
/// version.
#[verifier::rlimit(100)]
pub proof fn lemma_parse_render_version(v: VersionView)
    requires
        wf_version(v),
    ensures
        spec_parse_version(render_version(v)) == Ok::<VersionView, VersionError>(v),
{
    let a = dec_str(v.major as int);
    let b = dec_str(v.minor as int);
    let c = dec_str(v.patch as int);
    lemma_dec_str_shape(v.major as int);
    lemma_dec_str_shape(v.minor as int);
    lemma_dec_str_shape(v.patch as int);
    let r = render_version(v);
    let la = a.len() as int;
    let lb = b.len() as int;
    let lc = c.len() as int;
    let core_len = la + 1 + lb + 1 + lc;
    let pre_len: int = if v.pre.len() > 0 { 1 + v.pre.len() as int } else { 0 };
    let build_len: int = if v.build.len() > 0 { 1 + v.build.len() as int } else { 0 };
    assert(r.len() == core_len + pre_len + build_len);
    if v.pre.len() > 0 {
        lemma_pre_chars(v.pre);
    }
    if v.build.len() > 0 {
        lemma_build_chars(v.build);
    }
    // where each character of the rendering comes from
    assert forall|i: int| 0 <= i < la implies #[trigger] r[i] == a[i] by {}
    assert(r[la] == '.');
    assert forall|i: int| la + 1 <= i < la + 1 + lb implies #[trigger] r[i] == b[i - la - 1] by {}
    assert(r[la + 1 + lb] == '.');
    assert forall|i: int| la + 1 + lb + 1 <= i < core_len implies #[trigger] r[i] == c[
        i - (la + 1 + lb + 1)
    ] by {}
    assert forall|i: int| core_len < i < core_len + pre_len implies #[trigger] r[i] == v.pre[
        i - core_len - 1
    ] by {}
    assert forall|i: int|
        core_len + pre_len < i < r.len() implies #[trigger] r[i] == v.build[
        i - core_len - pre_len - 1
    ] by {}
    // digits are neither separators nor dots
    assert forall|i: int| 0 <= i < core_len && i != la && i != la + 1 + lb implies !(
    #[trigger] r[i] == '-' || r[i] == '+' || r[i] == '.') || (r[i] == '.' && (i == la || i == la + 1
        + lb)) by {
        if i < la {
            assert(is_digit(a[i]));
        } else if la + 1 <= i < la + 1 + lb {
            assert(is_digit(b[i - la - 1]));
        } else if la + 1 + lb + 1 <= i < core_len {
            assert(is_digit(c[i - (la + 1 + lb + 1)]));
        }
    }
    // the end of the numeric core
    let qs = |i: int| r[i] == '-' || r[i] == '+';
    if pre_len > 0 {
        assert(r[core_len] == '-');
        assert(least_idx_at(r.len() as int, qs, core_len));
        lemma_least_idx_unique(r.len() as int, qs, core_len);
    } else if build_len > 0 {
        assert(r[core_len] == '+');
        assert(least_idx_at(r.len() as int, qs, core_len));
        lemma_least_idx_unique(r.len() as int, qs, core_len);
    } else {
        if has_idx(r.len() as int, qs) {
            let l = least_idx(r.len() as int, qs);
            assert(least_idx_at(r.len() as int, qs, l));
        }
    }
    assert(sep_end(r) == core_len);
    let core = r.subrange(0, core_len);
    assert(core =~= a + seq!['.'] + b + seq!['.'] + c);
    // the two dots of the core
    let qd = |i: int| core[i] == '.';
    assert(core[la] == '.');
    assert forall|j: int| 0 <= j < la implies !#[trigger] qd(j) by {
        assert(core[j] == a[j]);
        assert(is_digit(a[j]));
    }
    assert(least_idx_at(core.len() as int, qd, la));
    lemma_least_idx_unique(core.len() as int, qd, la);
    assert(dot_split(core) == Some(la));
    let rest = core.subrange(la + 1, core.len() as int);
    assert(rest =~= b + seq!['.'] + c);
    let qr = |i: int| rest[i] == '.';
    assert(rest[lb] == '.');
    assert forall|j: int| 0 <= j < lb implies !#[trigger] qr(j) by {
        assert(rest[j] == b[j]);
        assert(is_digit(b[j]));
    }
    assert(least_idx_at(rest.len() as int, qr, lb));
    lemma_least_idx_unique(rest.len() as int, qr, lb);
    assert(dot_split(rest) == Some(lb));
    assert(core.subrange(0, la) =~= a);
    assert(rest.subrange(0, lb) =~= b);
    assert(rest.subrange(lb + 1, rest.len() as int) =~= c);
    assert(spec_num(a) == Ok::<u64, VersionError>(v.major));
    assert(spec_num(b) == Ok::<u64, VersionError>(v.minor));
    assert(spec_num(c) == Ok::<u64, VersionError>(v.patch));
    assert(spec_parse_core(core) == Ok::<(u64, u64, u64), VersionError>(
        (v.major, v.minor, v.patch),
    ));
    // the start of the build metadata
    let qp = |i: int| r[i] == '+';
    if build_len > 0 {
        assert(r[core_len + pre_len] == '+');
        assert forall|j: int| 0 <= j < core_len + pre_len implies !#[trigger] qp(j) by {
            if core_len < j {
                assert(r[j] == v.pre[j - core_len - 1]);
                assert(is_ident_char(v.pre[j - core_len - 1]) || v.pre[j - core_len - 1] == '.');
            }
        }
        assert(least_idx_at(r.len() as int, qp, core_len + pre_len));
        lemma_least_idx_unique(r.len() as int, qp, core_len + pre_len);
        assert(plus_idx(r) == core_len + pre_len);
    } else {
        assert forall|j: int| 0 <= j < r.len() implies !#[trigger] qp(j) by {
            if core_len < j {
                assert(r[j] == v.pre[j - core_len - 1]);
                assert(is_ident_char(v.pre[j - core_len - 1]) || v.pre[j - core_len - 1] == '.');
            }
        }
        if has_idx(r.len() as int, qp) {
            let l = least_idx(r.len() as int, qp);
            assert(least_idx_at(r.len() as int, qp, l));
        }
        assert(plus_idx(r) == r.len());
    }
    let pl = plus_idx(r);
    if pre_len > 0 {
        assert(r.subrange(core_len + 1, pl) =~= v.pre);
    }
    if build_len > 0 {
        assert(r.subrange(pl + 1, r.len() as int) =~= v.build);
    }
    match spec_parse_version(r) {
        Ok(w) => {
            assert(w =~= v);
        },
        Err(_) => {
            assert(false);
        },
    }
}

} // verus!

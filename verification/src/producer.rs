//! Building a descriptor the way a producer (for instance generated code)
//! does: explicit per-field overrides, an explicit "default to absent"
//! switch, and ambient build information for everything left open.

use vstd::prelude::*;

use crate::descriptor::{descs_view, opt_text_view, opt_version_view, TypeNameData};
use crate::version::{
    digits_val, is_digit, is_digits, lemma_digits_val_prefix_le, lemma_digits_val_take_step,
    parse_version, spec_parse_version, valid_pre, Version, VersionView,
};

verus! {

/// Per-type overrides a producer may configure; each `None` falls back to
/// the ambient information or, under `default_to_none`, to an absent field.
pub struct TypeNameArguments {
    /// Replaces the type's own identifier as the descriptor name.
    pub name: Option<String>,
    /// Replaces the ambient crate name.
    pub crate_name: Option<String>,
    /// Replaces the ambient module path.
    pub crate_module: Option<String>,
    /// Replaces the ambient crate version; must be a valid version string.
    pub crate_version: Option<String>,
    /// Replaces the ambient compiler version; must be a valid version
    /// string.
    pub rustc_version: Option<String>,
    /// When set, an unconfigured field becomes absent instead of falling
    /// back to the ambient information.
    pub default_to_none: bool,
}

/// What the build environment supplies when a field is not configured: the
/// defining crate's name and version, the defining module path, and the
/// compiler's version where it could be determined.
pub struct AmbientInfo {
    pub crate_name: String,
    pub crate_module: String,
    pub crate_version: Version,
    pub rustc_version: Option<Version>,
}

/// The name a resolved descriptor carries.
pub open spec fn resolved_name(ident: Seq<char>, args_name: Option<Seq<char>>) -> Seq<char> {
    match args_name {
        Some(t) => t,
        None => ident,
    }
}

/// The value an optional field resolves to: the override if configured,
/// absent under `default_to_none`, else the ambient value.
pub open spec fn resolved_field<T>(over: Option<T>, default_to_none: bool, ambient: Option<T>) -> Option<
    T,
> {
    match over {
        Some(x) => Some(x),
        None => {
            if default_to_none {
                None
            } else {
                ambient
            }
        },
    }
}

/// Build the descriptor of a type from its identifier, the configured
/// overrides, the ambient build information, and the already-resolved
/// descriptors of its generic parameters.
pub fn resolve_type_info(
    ident: String,
    args: TypeNameArguments,
    ambient: AmbientInfo,
    generics: Vec<TypeNameData>,
) -> (r: TypeNameData)
    requires
        args.crate_version matches Some(s) ==> spec_parse_version(s@) is Ok,
        args.rustc_version matches Some(s) ==> spec_parse_version(s@) is Ok,
        args.rustc_version is None && !args.default_to_none ==> ambient.rustc_version is Some,
    ensures
        r@.name == resolved_name(ident@, opt_text_view(args.name)),
        r@.crate_name == resolved_field(
            opt_text_view(args.crate_name),
            args.default_to_none,
            Some(ambient.crate_name@),
        ),
        r@.crate_module == resolved_field(
            opt_text_view(args.crate_module),
            args.default_to_none,
            Some(ambient.crate_module@),
        ),
        r@.crate_version == resolved_field(
            match args.crate_version {
                Some(s) => Some(spec_parse_version(s@)->Ok_0),
                None => None,
            },
            args.default_to_none,
            Some(ambient.crate_version@),
        ),
        r@.rustc_version == resolved_field(
            match args.rustc_version {
                Some(s) => Some(spec_parse_version(s@)->Ok_0),
                None => None,
            },
            args.default_to_none,
            opt_version_view(ambient.rustc_version),
        ),
        r@.generics == descs_view(generics@),
{
    let name: String = match args.name {
        Some(t) => t,
        None => ident,
    };
    let crate_name: Option<String> = match args.crate_name {
        Some(s) => Some(s),
        None => {
            if args.default_to_none {
                None
            } else {
                Some(ambient.crate_name)
            }
        },
    };
    let crate_module: Option<String> = match args.crate_module {
        Some(s) => Some(s),
        None => {
            if args.default_to_none {
                None
            } else {
                Some(ambient.crate_module)
            }
        },
    };
    let crate_version: Option<Version> = match args.crate_version {
        Some(s) => match parse_version(s.as_str()) {
            Ok(v) => Some(v),
            Err(_) => vstd::pervasive::unreached(),
        },
        None => {
            if args.default_to_none {
                None
            } else {
                Some(ambient.crate_version)
            }
        },
    };
    let rustc_version: Option<Version> = match args.rustc_version {
        Some(s) => match parse_version(s.as_str()) {
            Ok(v) => Some(v),
            Err(_) => vstd::pervasive::unreached(),
        },
        None => {
            if args.default_to_none {
                None
            } else {
                ambient.rustc_version
            }
        },
    };
    TypeNameData::new(name, crate_name, crate_module, crate_version, rustc_version, generics)
}

/// The digits of a numeral as `u64::from_str` reads it: an optional
/// leading `'+'` is dropped.
pub open spec fn numeral_body(s: Seq<char>) -> Seq<char> {
    if s.len() > 0 && s[0] == '+' {
        s.subrange(1, s.len() as int)
    } else {
        s
    }
}

/// A string `u64::from_str` accepts: an optional leading `'+'`, then at
/// least one digit, with the value in range.
pub open spec fn u64_numeral(s: Seq<char>) -> bool {
    &&& numeral_body(s).len() > 0
    &&& is_digits(numeral_body(s))
    &&& digits_val(numeral_body(s)) <= u64::MAX as int
}

/// The numeric value of the digit string starting at `from`, leading zeros
/// allowed.
fn digits_to_u64(s: &str, from: usize) -> (r: u64)
    requires
        from <= s@.len(),
        is_digits(s@.subrange(from as int, s@.len() as int)),
        s@.len() > from,
        digits_val(s@.subrange(from as int, s@.len() as int)) <= u64::MAX as int,
    ensures
        r as int == digits_val(s@.subrange(from as int, s@.len() as int)),
{
    let ghost body = s@.subrange(from as int, s@.len() as int);
    let n = s.unicode_len();
    let mut acc: u64 = 0;
    let mut i: usize = from;
    while i < n
        invariant
            from <= i <= n,
            n == s@.len(),
            body == s@.subrange(from as int, s@.len() as int),
            is_digits(body),
            digits_val(body) <= u64::MAX as int,
            acc as int == digits_val(body.take(i - from)),
        decreases n - i,
    {
        let c = s.get_char(i);
        proof {
            assert(body[i - from] == s@[i as int]);
            assert(is_digit(s@[i as int]));
        }
        let d: u64 = (c as u32 - 48) as u64;
        proof {
            assert('0' as int == 48);
            assert(d as int == crate::version::digit_val(c));
            assert(0 <= d <= 9);
            lemma_digits_val_take_step(body, i - from);
            lemma_digits_val_prefix_le(body, i - from + 1);
        }
        acc = acc * 10 + d;
        i = i + 1;
    }
    proof {
        assert(body.take(n - from) =~= body);
    }
    acc
}

/// The value of a numeral as `u64::from_str` reads it.
fn u64_from_numeral(s: &str) -> (r: u64)
    requires
        u64_numeral(s@),
    ensures
        r as int == digits_val(numeral_body(s@)),
{
    let n = s.unicode_len();
    if n > 0 && s.get_char(0) == '+' {
        proof {
            assert(numeral_body(s@) =~= s@.subrange(1, s@.len() as int));
        }
        digits_to_u64(s, 1)
    } else {
        proof {
            assert(numeral_body(s@) =~= s@);
            assert(s@.subrange(0, s@.len() as int) =~= s@);
        }
        digits_to_u64(s, 0)
    }
}

/// Produce a version from its numeric components and pre-release tag given
/// as strings, as generated code hands them over; build metadata stays
/// empty.  Each numeric component must be what `u64::from_str` accepts, and
/// the pre-release tag must be empty or valid; other inputs made the
/// producer fail its build, so they are excluded here.
pub fn new_semver_version(major: &str, minor: &str, patch: &str, pre: &str) -> (r: Version)
    requires
        u64_numeral(major@),
        u64_numeral(minor@),
        u64_numeral(patch@),
        pre@.len() == 0 || valid_pre(pre@),
    ensures
        r@ == (VersionView {
            major: (digits_val(numeral_body(major@)) as u64),
            minor: (digits_val(numeral_body(minor@)) as u64),
            patch: (digits_val(numeral_body(patch@)) as u64),
            pre: pre@,
            build: Seq::<char>::empty(),
        }),
        crate::version::wf_version(r@),
{
    let r = Version {
        major: u64_from_numeral(major),
        minor: u64_from_numeral(minor),
        patch: u64_from_numeral(patch),
        pre: pre.to_owned(),
        build: String::new(),
    };
    proof {
        assert(r@ =~= VersionView {
            major: (digits_val(numeral_body(major@)) as u64),
            minor: (digits_val(numeral_body(minor@)) as u64),
            patch: (digits_val(numeral_body(patch@)) as u64),
            pre: pre@,
            build: Seq::<char>::empty(),
        });
    }
    r
}

} // verus!

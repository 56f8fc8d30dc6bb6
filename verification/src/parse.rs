//! The recursive-descent parser: from the token sequence of an encoded line
//! back to a descriptor tree, or to a precise error paired with the
//! unconsumed remainder.

use vstd::prelude::*;

use crate::descriptor::{
    crate_marker, desc_view, descs_view, module_marker, opt_text_view, opt_version_view,
    rustc_marker, version_marker, DescView, TypeNameData,
};
use crate::text::{
    all_spaces_range, find_sub, first_sub, has_sub, least_idx_at, lemma_least_idx_unique,
    lemma_trimmed_empty_iff, trimmed, trimmed_substring,
};
use crate::token::{
    spec_tokenize, split_string, tokens_text, tokens_to_string, views_of, Token, TokenView,
};
use crate::version::{parse_version, spec_parse_version, Version, VersionError, VersionView};

verus! {

/// Why parsing failed.
#[derive(Debug)]
pub enum ParseError {
    /// The token stream does not begin with a plain-text name segment.
    TypeNameNotFound,
    /// A complete descriptor was parsed but tokens were left over; the
    /// otherwise-valid tree is preserved.
    RemainingToken(TypeNameData),
    /// `>` appeared outside an open generic block, or the input ended
    /// while a generic block was still open.
    UnexpectedGenericEnd,
    /// `;` appeared outside an open generic block.
    UnexpectedGenericGenericNext,
    /// `<` appeared where no generic block may start.
    UnexpectedGenericStart,
    /// `Crate=` was preceded by unexpected text.
    FailedToParseCrateName,
    /// `Crate=` was assigned twice at one nesting level.
    CrateNameSetTwice,
    /// `Module=` was preceded by unexpected text.
    FailedToParseCrateModule,
    /// `Module=` was assigned twice at one nesting level.
    CrateModuleSetTwice,
    /// `Version=` was preceded by unexpected text.
    FailedToParseCrateVersion,
    /// `Version=` was assigned twice at one nesting level.
    CrateVersionSetTwice,
    /// `Rustc=` was preceded by unexpected text.
    FailedToParseRustcVersion,
    /// `Rustc=` was assigned twice at one nesting level.
    RustcVersionSetTwice,
    /// A text segment matched none of the recognized field markers.
    UnexpectedData,
    /// The value after `Version=` is not a semantic version.
    FailedToParseCrateVersionSemver(VersionError),
    /// The value after `Rustc=` is not a semantic version.
    FailedToParseRustcVersionSemver(VersionError),
}

/// Spec-level model of a parse error.
#[verifier::ext_equal]
pub enum ErrView {
    TypeNameNotFound,
    RemainingToken(DescView),
    UnexpectedGenericEnd,
    UnexpectedGenericGenericNext,
    UnexpectedGenericStart,
    FailedToParseCrateName,
    CrateNameSetTwice,
    FailedToParseCrateModule,
    CrateModuleSetTwice,
    FailedToParseCrateVersion,
    CrateVersionSetTwice,
    FailedToParseRustcVersion,
    RustcVersionSetTwice,
    UnexpectedData,
    FailedToParseCrateVersionSemver(VersionError),
    FailedToParseRustcVersionSemver(VersionError),
}

impl View for ParseError {
    type V = ErrView;

    open spec fn view(&self) -> ErrView {
        match self {
            ParseError::TypeNameNotFound => ErrView::TypeNameNotFound,
            ParseError::RemainingToken(d) => ErrView::RemainingToken(desc_view(*d)),
            ParseError::UnexpectedGenericEnd => ErrView::UnexpectedGenericEnd,
            ParseError::UnexpectedGenericGenericNext => ErrView::UnexpectedGenericGenericNext,
            ParseError::UnexpectedGenericStart => ErrView::UnexpectedGenericStart,
            ParseError::FailedToParseCrateName => ErrView::FailedToParseCrateName,
            ParseError::CrateNameSetTwice => ErrView::CrateNameSetTwice,
            ParseError::FailedToParseCrateModule => ErrView::FailedToParseCrateModule,
            ParseError::CrateModuleSetTwice => ErrView::CrateModuleSetTwice,
            ParseError::FailedToParseCrateVersion => ErrView::FailedToParseCrateVersion,
            ParseError::CrateVersionSetTwice => ErrView::CrateVersionSetTwice,
            ParseError::FailedToParseRustcVersion => ErrView::FailedToParseRustcVersion,
            ParseError::RustcVersionSetTwice => ErrView::RustcVersionSetTwice,
            ParseError::UnexpectedData => ErrView::UnexpectedData,
            ParseError::FailedToParseCrateVersionSemver(e) => ErrView::FailedToParseCrateVersionSemver(
                *e,
            ),
            ParseError::FailedToParseRustcVersionSemver(e) => ErrView::FailedToParseRustcVersionSemver(
                *e,
            ),
        }
    }
}

/// Whether a generic block may start, is open, or is forbidden at the
/// current nesting level.
#[derive(PartialEq, Eq, Structural, Clone, Copy, Debug)]
pub enum GenState {
    /// A `<` may legally start a nested block here.
    Possible,
    /// Inside a generic block, awaiting `;` or `>`.
    Ongoing,
    /// No further generic block may start at this level.
    Impossible,
}

/// The optional field values collected at one nesting level; the two version
/// values are still raw text here.
#[verifier::ext_equal]
pub struct FieldsView {
    pub crate_name: Option<Seq<char>>,
    pub crate_module: Option<Seq<char>>,
    pub version_text: Option<Seq<char>>,
    pub rustc_text: Option<Seq<char>>,
}

/// The full parser state at one nesting level.
#[verifier::ext_equal]
pub struct PState {
    pub pos: int,
    pub gstate: GenState,
    pub name: Seq<char>,
    pub fields: FieldsView,
    pub generics: Seq<DescView>,
}

/// What one nesting level yields: a descriptor and the next unconsumed
/// position, or an error and the position of the remainder.
#[verifier::ext_equal]
pub enum POutcome {
    Good(DescView, int),
    Bad(ErrView, int),
}

/// The fields that make parsing stop early at a level: once crate name,
/// crate version and compiler version are all collected, no further token is
/// consumed at this level.
pub open spec fn all_origin(f: FieldsView) -> bool {
    f.crate_name is Some && f.version_text is Some && f.rustc_text is Some
}

/// Apply one plain-text token to the collected fields: the first matching
/// marker in the fixed order `Crate=`, `Module=`, `Version=`, `Rustc=` wins;
/// the text before the marker must be blank; a field may be set only once.
pub open spec fn apply_fields(f: FieldsView, s: Seq<char>) -> Result<FieldsView, ErrView> {
    if has_sub(s, crate_marker()) {
        let k = first_sub(s, crate_marker());
        if trimmed(s.subrange(0, k)).len() == 0 {
            if f.crate_name is None {
                Ok(FieldsView { crate_name: Some(trimmed(s.subrange(k + 6, s.len() as int))), ..f })
            } else {
                Err(ErrView::CrateNameSetTwice)
            }
        } else {
            Err(ErrView::FailedToParseCrateName)
        }
    } else if has_sub(s, module_marker()) {
        let k = first_sub(s, module_marker());
        if trimmed(s.subrange(0, k)).len() == 0 {
            if f.crate_module is None {
                Ok(FieldsView { crate_module: Some(trimmed(s.subrange(k + 7, s.len() as int))), ..f })
            } else {
                Err(ErrView::CrateModuleSetTwice)
            }
        } else {
            Err(ErrView::FailedToParseCrateModule)
        }
    } else if has_sub(s, version_marker()) {
        let k = first_sub(s, version_marker());
        if trimmed(s.subrange(0, k)).len() == 0 {
            if f.version_text is None {
                Ok(FieldsView { version_text: Some(trimmed(s.subrange(k + 8, s.len() as int))), ..f })
            } else {
                Err(ErrView::CrateVersionSetTwice)
            }
        } else {
            Err(ErrView::FailedToParseCrateVersion)
        }
    } else if has_sub(s, rustc_marker()) {
        let k = first_sub(s, rustc_marker());
        if trimmed(s.subrange(0, k)).len() == 0 {
            if f.rustc_text is None {
                Ok(FieldsView { rustc_text: Some(trimmed(s.subrange(k + 6, s.len() as int))), ..f })
            } else {
                Err(ErrView::RustcVersionSetTwice)
            }
        } else {
            Err(ErrView::FailedToParseRustcVersion)
        }
    } else {
        Err(ErrView::UnexpectedData)
    }
}

/// The descriptor a finished level denotes, once its version texts parse.
pub open spec fn finish_node(st: PState) -> POutcome {
    match st.fields.version_text {
        Some(t) => match spec_parse_version(t) {
            Err(e) => POutcome::Bad(ErrView::FailedToParseCrateVersionSemver(e), st.pos),
            Ok(cv) => finish_rustc(st, Some(cv)),
        },
        None => finish_rustc(st, None),
    }
}

/// The second half of finishing a level: the compiler version text.
pub open spec fn finish_rustc(st: PState, cv: Option<VersionView>) -> POutcome {
    match st.fields.rustc_text {
        Some(t) => match spec_parse_version(t) {
            Err(e) => POutcome::Bad(ErrView::FailedToParseRustcVersionSemver(e), st.pos),
            Ok(rv) => POutcome::Good(node_of(st, cv, Some(rv)), st.pos),
        },
        None => POutcome::Good(node_of(st, cv, None), st.pos),
    }
}

/// The descriptor assembled from a finished level.
pub open spec fn node_of(st: PState, cv: Option<VersionView>, rv: Option<VersionView>) -> DescView {
    DescView {
        name: st.name,
        crate_name: st.fields.crate_name,
        crate_module: st.fields.crate_module,
        crate_version: cv,
        rustc_version: rv,
        generics: st.generics,
    }
}

/// Parse one descriptor starting at `start`: the first token must be a text
/// segment, which becomes the name; the remaining tokens are consumed by the
/// field-and-generics state machine.
pub open spec fn spec_parse_type(ts: Seq<TokenView>, start: int) -> POutcome
    decreases ts.len() - start, 0int,
{
    if 0 <= start < ts.len() && (ts[start] matches TokenView::Text(_)) {
        match ts[start] {
            TokenView::Text(name) => spec_parse_fields(
                ts,
                PState {
                    pos: start + 1,
                    gstate: GenState::Possible,
                    name: name,
                    fields: FieldsView {
                        crate_name: None,
                        crate_module: None,
                        version_text: None,
                        rustc_text: None,
                    },
                    generics: Seq::empty(),
                },
            ),
            _ => POutcome::Bad(ErrView::TypeNameNotFound, start),
        }
    } else {
        POutcome::Bad(ErrView::TypeNameNotFound, start)
    }
}

/// Consume tokens at one nesting level: text segments set fields, `<`, `;`
/// and `>` drive the generic block, `,` only forbids further generics.
/// After any token, once crate name and both version texts are collected the
/// level finishes early.  Running out of tokens while a generic block is
/// still open is malformed nesting: the dangling block is rejected, not
/// absorbed.
pub open spec fn spec_parse_fields(ts: Seq<TokenView>, st: PState) -> POutcome
    decreases ts.len() - st.pos, 1int,
{
    if !(0 <= st.pos < ts.len()) {
        if st.gstate == GenState::Ongoing {
            POutcome::Bad(ErrView::UnexpectedGenericEnd, st.pos)
        } else {
            finish_node(st)
        }
    } else {
        let p1 = st.pos + 1;
        match ts[st.pos] {
            TokenView::Text(s) => match apply_fields(st.fields, s) {
                Err(e) => POutcome::Bad(e, p1),
                Ok(f2) => {
                    let st2 = PState { pos: p1, gstate: GenState::Impossible, fields: f2, ..st };
                    if all_origin(f2) {
                        finish_node(st2)
                    } else {
                        spec_parse_fields(ts, st2)
                    }
                },
            },
            TokenView::Open => {
                if st.gstate == GenState::Possible {
                    match spec_parse_type(ts, p1) {
                        POutcome::Bad(e, np) => POutcome::Bad(e, np),
                        POutcome::Good(d, np) => {
                            if st.pos < np <= ts.len() {
                                let st2 = PState {
                                    pos: np,
                                    gstate: GenState::Ongoing,
                                    generics: st.generics.push(d),
                                    ..st
                                };
                                if all_origin(st2.fields) {
                                    finish_node(st2)
                                } else {
                                    spec_parse_fields(ts, st2)
                                }
                            } else {
                                arbitrary()
                            }
                        },
                    }
                } else {
                    POutcome::Bad(ErrView::UnexpectedGenericStart, p1)
                }
            },
            TokenView::Next => {
                if st.gstate == GenState::Ongoing {
                    match spec_parse_type(ts, p1) {
                        POutcome::Bad(e, np) => POutcome::Bad(e, np),
                        POutcome::Good(d, np) => {
                            if st.pos < np <= ts.len() {
                                let st2 = PState { pos: np, generics: st.generics.push(d), ..st };
                                if all_origin(st2.fields) {
                                    finish_node(st2)
                                } else {
                                    spec_parse_fields(ts, st2)
                                }
                            } else {
                                arbitrary()
                            }
                        },
                    }
                } else {
                    POutcome::Bad(ErrView::UnexpectedGenericGenericNext, p1)
                }
            },
            TokenView::Close => {
                if st.gstate == GenState::Ongoing {
                    let st2 = PState { pos: p1, gstate: GenState::Impossible, ..st };
                    if all_origin(st2.fields) {
                        finish_node(st2)
                    } else {
                        spec_parse_fields(ts, st2)
                    }
                } else {
                    POutcome::Bad(ErrView::UnexpectedGenericEnd, p1)
                }
            },
            TokenView::Comma => {
                let st2 = PState { pos: p1, gstate: GenState::Impossible, ..st };
                if all_origin(st2.fields) {
                    finish_node(st2)
                } else {
                    spec_parse_fields(ts, st2)
                }
            },
        }
    }
}

// ---------------------------------------------------------------------------
// The executable parser
// ---------------------------------------------------------------------------

/// The optional field values collected so far at one nesting level.
struct FieldAcc {
    crate_name: Option<String>,
    crate_module: Option<String>,
    version_text: Option<String>,
    rustc_text: Option<String>,
}

spec fn facc_view(f: FieldAcc) -> FieldsView {
    FieldsView {
        crate_name: opt_text_view(f.crate_name),
        crate_module: opt_text_view(f.crate_module),
        version_text: opt_text_view(f.version_text),
        rustc_text: opt_text_view(f.rustc_text),
    }
}

/// Match one plain-text token against the four field markers and record its
/// value, exactly as `apply_fields` says.
fn apply_text_token(s: &str, acc: &mut FieldAcc) -> (r: Option<ParseError>)
    ensures
        match r {
            None => apply_fields(facc_view(*old(acc)), s@) == Ok::<FieldsView, ErrView>(facc_view(*final(acc))),
            Some(e) => apply_fields(facc_view(*old(acc)), s@) == Err::<FieldsView, ErrView>(e@),
        },
{
    let n = s.unicode_len();
    proof {
        reveal_strlit("Crate=");
        reveal_strlit("Module=");
        reveal_strlit("Version=");
        reveal_strlit("Rustc=");
        assert("Crate="@ =~= crate_marker());
        assert("Module="@ =~= module_marker());
        assert("Version="@ =~= version_marker());
        assert("Rustc="@ =~= rustc_marker());
    }
    match find_sub(s, "Crate=") {
        Some(k) => {
            proof {
                assert(least_idx_at(s@.len() as int + 1, |i: int| crate::text::occurs_at(s@, crate_marker(), i), k as int));
                assert(k + 6 <= n);
            }
            if all_spaces_range(s, 0, k) {
                proof {
                    lemma_trimmed_empty_iff(s@.subrange(0, k as int));
                }
                if acc.crate_name.is_none() {
                    let v = trimmed_substring(s, k + 6, n);
                    acc.crate_name = Some(v);
                    None
                } else {
                    Some(ParseError::CrateNameSetTwice)
                }
            } else {
                proof {
                    lemma_trimmed_empty_iff(s@.subrange(0, k as int));
                }
                Some(ParseError::FailedToParseCrateName)
            }
        },
        None => match find_sub(s, "Module=") {
            Some(k) => {
                proof {
                    assert(least_idx_at(s@.len() as int + 1, |i: int| crate::text::occurs_at(s@, module_marker(), i), k as int));
                    assert(k + 7 <= n);
                }
                if all_spaces_range(s, 0, k) {
                    proof {
                        lemma_trimmed_empty_iff(s@.subrange(0, k as int));
                    }
                    if acc.crate_module.is_none() {
                        let v = trimmed_substring(s, k + 7, n);
                        acc.crate_module = Some(v);
                        None
                    } else {
                        Some(ParseError::CrateModuleSetTwice)
                    }
                } else {
                    proof {
                        lemma_trimmed_empty_iff(s@.subrange(0, k as int));
                    }
                    Some(ParseError::FailedToParseCrateModule)
                }
            },
            None => match find_sub(s, "Version=") {
                Some(k) => {
                    proof {
                        assert(least_idx_at(s@.len() as int + 1, |i: int| crate::text::occurs_at(s@, version_marker(), i), k as int));
                        assert(k + 8 <= n);
                    }
                    if all_spaces_range(s, 0, k) {
                        proof {
                            lemma_trimmed_empty_iff(s@.subrange(0, k as int));
                        }
                        if acc.version_text.is_none() {
                            let v = trimmed_substring(s, k + 8, n);
                            acc.version_text = Some(v);
                            None
                        } else {
                            Some(ParseError::CrateVersionSetTwice)
                        }
                    } else {
                        proof {
                            lemma_trimmed_empty_iff(s@.subrange(0, k as int));
                        }
                        Some(ParseError::FailedToParseCrateVersion)
                    }
                },
                None => match find_sub(s, "Rustc=") {
                    Some(k) => {
                        proof {
                            assert(least_idx_at(s@.len() as int + 1, |i: int| crate::text::occurs_at(s@, rustc_marker(), i), k as int));
                            assert(k + 6 <= n);
                        }
                        if all_spaces_range(s, 0, k) {
                            proof {
                                lemma_trimmed_empty_iff(s@.subrange(0, k as int));
                            }
                            if acc.rustc_text.is_none() {
                                let v = trimmed_substring(s, k + 6, n);
                                acc.rustc_text = Some(v);
                                None
                            } else {
                                Some(ParseError::RustcVersionSetTwice)
                            }
                        } else {
                            proof {
                                lemma_trimmed_empty_iff(s@.subrange(0, k as int));
                            }
                            Some(ParseError::FailedToParseRustcVersion)
                        }
                    },
                    None => Some(ParseError::UnexpectedData),
                },
            },
        },
    }
}

/// Parse one descriptor from `tokens`, starting at `start`; on success also
/// return the next unconsumed position, on failure the position the
/// remainder starts at.
pub(crate) fn parse_type(tokens: &Vec<Token>, start: usize) -> (r: Result<
    (TypeNameData, usize),
    (ParseError, usize),
>)
    requires
        start <= tokens@.len(),
    ensures
        match r {
            Ok(p) => spec_parse_type(views_of(tokens@), start as int) == POutcome::Good(
                p.0@,
                p.1 as int,
            ) && start < p.1 <= tokens@.len(),
            Err(p) => spec_parse_type(views_of(tokens@), start as int) == POutcome::Bad(
                p.0@,
                p.1 as int,
            ) && start <= p.1 <= tokens@.len(),
        },
    decreases tokens@.len() - start,
{
    let ghost ts = views_of(tokens@);
    let n = tokens.len();
    if start >= n {
        return Err((ParseError::TypeNameNotFound, start));
    }
    proof {
        assert(ts[start as int] == tokens@[start as int]@);
    }
    let name: String = match &tokens[start] {
        Token::Text(s) => s.clone(),
        Token::GenericStart => {
            return Err((ParseError::TypeNameNotFound, start));
        },
        Token::GenericNext => {
            return Err((ParseError::TypeNameNotFound, start));
        },
        Token::GenericEnd => {
            return Err((ParseError::TypeNameNotFound, start));
        },
        Token::Comma => {
            return Err((ParseError::TypeNameNotFound, start));
        },
    };
    let mut pos: usize = start + 1;
    let mut gstate: GenState = GenState::Possible;
    let mut acc = FieldAcc {
        crate_name: None,
        crate_module: None,
        version_text: None,
        rustc_text: None,
    };
    let mut generics: Vec<TypeNameData> = Vec::new();
    proof {
        let st0 = PState {
            pos: pos as int,
            gstate: gstate,
            name: name@,
            fields: facc_view(acc),
            generics: descs_view(generics@),
        };
        assert(facc_view(acc) =~= FieldsView {
            crate_name: None,
            crate_module: None,
            version_text: None,
            rustc_text: None,
        });
        assert(descs_view(generics@) =~= Seq::<DescView>::empty());
        assert(spec_parse_type(ts, start as int) == spec_parse_fields(ts, st0));
    }
    loop
        invariant_except_break
            start + 1 <= pos <= n,
            n == tokens@.len(),
            ts == views_of(tokens@),
            !all_origin(facc_view(acc)),
            spec_parse_type(ts, start as int) == spec_parse_fields(
                ts,
                PState {
                    pos: pos as int,
                    gstate: gstate,
                    name: name@,
                    fields: facc_view(acc),
                    generics: descs_view(generics@),
                },
            ),
        ensures
            start + 1 <= pos <= n,
            n == tokens@.len(),
            spec_parse_type(ts, start as int) == finish_node(
                PState {
                    pos: pos as int,
                    gstate: gstate,
                    name: name@,
                    fields: facc_view(acc),
                    generics: descs_view(generics@),
                },
            ),
        decreases n - pos,
    {
        let ghost cur = PState {
            pos: pos as int,
            gstate: gstate,
            name: name@,
            fields: facc_view(acc),
            generics: descs_view(generics@),
        };
        if pos >= n {
            if gstate == GenState::Ongoing {
                proof {
                    assert(spec_parse_fields(ts, cur) == POutcome::Bad(
                        ErrView::UnexpectedGenericEnd,
                        pos as int,
                    ));
                }
                return Err((ParseError::UnexpectedGenericEnd, pos));
            }
            proof {
                assert(spec_parse_fields(ts, cur) == finish_node(cur));
            }
            break;
        }
        proof {
            assert(ts[pos as int] == tokens@[pos as int]@);
        }
        let p1 = pos + 1;
        match &tokens[pos] {
            Token::Text(s) => {
                gstate = GenState::Impossible;
                match apply_text_token(s.as_str(), &mut acc) {
                    Some(e) => {
                        proof {
                            assert(spec_parse_fields(ts, cur) == POutcome::Bad(e@, p1 as int));
                        }
                        return Err((e, p1));
                    },
                    None => {
                        pos = p1;
                        proof {
                            let st2 = PState {
                                pos: p1 as int,
                                gstate: GenState::Impossible,
                                fields: facc_view(acc),
                                ..cur
                            };
                            assert(spec_parse_fields(ts, cur) == (if all_origin(facc_view(acc)) {
                                finish_node(st2)
                            } else {
                                spec_parse_fields(ts, st2)
                            }));
                        }
                    },
                }
            },
            Token::GenericStart => {
                if gstate == GenState::Possible {
                    match parse_type(tokens, p1) {
                        Ok(d_np) => {
                            let (d, np) = d_np;
                            proof {
                                let gold = generics@;
                                assert(descs_view(gold.push(d)).drop_last() =~= descs_view(gold))
                                    by {
                                    assert(gold.push(d).drop_last() =~= gold);
                                }
                                assert(descs_view(gold.push(d)) =~= descs_view(gold).push(
                                    desc_view(d),
                                ));
                            }
                            generics.push(d);
                            gstate = GenState::Ongoing;
                            pos = np;
                            proof {
                                let st2 = PState {
                                    pos: np as int,
                                    gstate: GenState::Ongoing,
                                    generics: descs_view(generics@),
                                    ..cur
                                };
                                assert(spec_parse_fields(ts, cur) == (if all_origin(facc_view(acc)) {
                                    finish_node(st2)
                                } else {
                                    spec_parse_fields(ts, st2)
                                }));
                            }
                        },
                        Err(e_np) => {
                            proof {
                                assert(spec_parse_fields(ts, cur) == POutcome::Bad(
                                    e_np.0@,
                                    e_np.1 as int,
                                ));
                            }
                            return Err(e_np);
                        },
                    }
                } else {
                    proof {
                        assert(spec_parse_fields(ts, cur) == POutcome::Bad(
                            ErrView::UnexpectedGenericStart,
                            p1 as int,
                        ));
                    }
                    return Err((ParseError::UnexpectedGenericStart, p1));
                }
            },
            Token::GenericNext => {
                if gstate == GenState::Ongoing {
                    match parse_type(tokens, p1) {
                        Ok(d_np) => {
                            let (d, np) = d_np;
                            proof {
                                let gold = generics@;
                                assert(descs_view(gold.push(d)).drop_last() =~= descs_view(gold))
                                    by {
                                    assert(gold.push(d).drop_last() =~= gold);
                                }
                                assert(descs_view(gold.push(d)) =~= descs_view(gold).push(
                                    desc_view(d),
                                ));
                            }
                            generics.push(d);
                            pos = np;
                            proof {
                                let st2 = PState {
                                    pos: np as int,
                                    generics: descs_view(generics@),
                                    ..cur
                                };
                                assert(spec_parse_fields(ts, cur) == (if all_origin(facc_view(acc)) {
                                    finish_node(st2)
                                } else {
                                    spec_parse_fields(ts, st2)
                                }));
                            }
                        },
                        Err(e_np) => {
                            proof {
                                assert(spec_parse_fields(ts, cur) == POutcome::Bad(
                                    e_np.0@,
                                    e_np.1 as int,
                                ));
                            }
                            return Err(e_np);
                        },
                    }
                } else {
                    proof {
                        assert(spec_parse_fields(ts, cur) == POutcome::Bad(
                            ErrView::UnexpectedGenericGenericNext,
                            p1 as int,
                        ));
                    }
                    return Err((ParseError::UnexpectedGenericGenericNext, p1));
                }
            },
            Token::GenericEnd => {
                if gstate == GenState::Ongoing {
                    gstate = GenState::Impossible;
                    pos = p1;
                    proof {
                        let st2 = PState { pos: p1 as int, gstate: GenState::Impossible, ..cur };
                        assert(spec_parse_fields(ts, cur) == (if all_origin(facc_view(acc)) {
                            finish_node(st2)
                        } else {
                            spec_parse_fields(ts, st2)
                        }));
                    }
                } else {
                    proof {
                        assert(spec_parse_fields(ts, cur) == POutcome::Bad(
                            ErrView::UnexpectedGenericEnd,
                            p1 as int,
                        ));
                    }
                    return Err((ParseError::UnexpectedGenericEnd, p1));
                }
            },
            Token::Comma => {
                gstate = GenState::Impossible;
                pos = p1;
                proof {
                    let st2 = PState { pos: p1 as int, gstate: GenState::Impossible, ..cur };
                    assert(spec_parse_fields(ts, cur) == (if all_origin(facc_view(acc)) {
                        finish_node(st2)
                    } else {
                        spec_parse_fields(ts, st2)
                    }));
                }
            },
        }
        if acc.crate_name.is_some() && acc.version_text.is_some() && acc.rustc_text.is_some() {
            break;
        }
    }
    let ghost endst = PState {
        pos: pos as int,
        gstate: gstate,
        name: name@,
        fields: facc_view(acc),
        generics: descs_view(generics@),
    };
    let crate_version: Option<Version> = match &acc.version_text {
        Some(t) => match parse_version(t.as_str()) {
            Ok(v) => Some(v),
            Err(e) => {
                proof {
                    assert(finish_node(endst) == POutcome::Bad(
                        ErrView::FailedToParseCrateVersionSemver(e),
                        pos as int,
                    ));
                }
                return Err((ParseError::FailedToParseCrateVersionSemver(e), pos));
            },
        },
        None => None,
    };
    let rustc_version: Option<Version> = match &acc.rustc_text {
        Some(t) => match parse_version(t.as_str()) {
            Ok(v) => Some(v),
            Err(e) => {
                proof {
                    assert(finish_node(endst) == POutcome::Bad(
                        ErrView::FailedToParseRustcVersionSemver(e),
                        pos as int,
                    ));
                }
                return Err((ParseError::FailedToParseRustcVersionSemver(e), pos));
            },
        },
        None => None,
    };
    let d = TypeNameData {
        name,
        crate_name: acc.crate_name,
        crate_module: acc.crate_module,
        crate_version,
        rustc_version,
        generics,
    };
    proof {
        assert(desc_view(d) =~= node_of(endst, opt_version_view(d.crate_version), opt_version_view(d.rustc_version)));
        assert(finish_node(endst) == POutcome::Good(desc_view(d), pos as int));
    }
    Ok((d, pos))
}

/// What parsing an encoded line yields: the tree when the whole token
/// sequence forms exactly one descriptor, else the error paired with the
/// unconsumed remainder rendered back to text.
pub open spec fn spec_parse_line(s: Seq<char>) -> Result<DescView, (ErrView, Seq<char>)> {
    let ts = spec_tokenize(s);
    match spec_parse_type(ts, 0) {
        POutcome::Good(d, np) => {
            if np == ts.len() {
                Ok(d)
            } else {
                Err((ErrView::RemainingToken(d), tokens_text(ts.skip(np))))
            }
        },
        POutcome::Bad(e, np) => Err((e, tokens_text(ts.skip(np)))),
    }
}

impl TypeNameData {
    /// Parse the canonical one-line form back into a descriptor tree.
    ///
    /// On failure the error comes paired with the unconsumed token remainder
    /// rendered back to text, so a caller can report both what failed and
    /// where.
    pub fn try_from_one_line_string(s: &str) -> (r: Result<TypeNameData, (ParseError, String)>)
        ensures
            match r {
                Ok(d) => spec_parse_line(s@) == Ok::<DescView, (ErrView, Seq<char>)>(d@),
                Err(p) => spec_parse_line(s@) == Err::<DescView, (ErrView, Seq<char>)>(
                    (p.0@, p.1@),
                ),
            },
    {
        let mut tokens: Vec<Token> = Vec::new();
        split_string(s, &mut tokens);
        proof {
            assert(views_of(Seq::<Token>::empty()) =~= Seq::<TokenView>::empty());
            assert(views_of(tokens@) =~= spec_tokenize(s@));
        }
        match parse_type(&tokens, 0) {
            Ok(d_np) => {
                let (d, np) = d_np;
                if np == tokens.len() {
                    Ok(d)
                } else {
                    let rem = tokens_to_string(&tokens, np);
                    Err((ParseError::RemainingToken(d), rem))
                }
            },
            Err(e_np) => {
                let (e, np) = e_np;
                let rem = tokens_to_string(&tokens, np);
                Err((e, rem))
            },
        }
    }
}

} // verus!

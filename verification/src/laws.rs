//! The laws the encoding obeys, proved once and for all: serializing any
//! well-formed descriptor tree and parsing the result yields the same tree,
//! a descriptor without generics serializes without brackets, a descriptor
//! without fields serializes to its bare name, and generic parameters keep
//! their order.

use vstd::prelude::*;

use crate::descriptor::{
    comma_sep, crate_marker, field_value_ok, full_origin, module_marker, render_fields,
    render_generics, render_list, render_opt_text, render_opt_version, round_trippable,
    rustc_marker, spec_render, version_marker, wf_fields, wf_subtree, DescView,
};
use crate::parse::{
    all_origin, apply_fields, finish_node, spec_parse_fields, spec_parse_line, spec_parse_type,
    ErrView, FieldsView, GenState, POutcome, PState,
};
use crate::text::{
    first_sub, has_sub, least_idx_at, lemma_least_idx_exists, lemma_least_idx_unique, occurs_at,
};
use crate::version::lemma_parse_render_version;
use crate::text::{is_delim, is_space, lemma_trim_stable_iff, no_delims, trimmed};
use crate::token::{
    lemma_tokenize_concat, lemma_tokenize_delim_head, lemma_tokenize_no_delim,
    lemma_tokenize_space_head, lemma_tokenize_text, spec_tokenize, TokenView,
};
use crate::version::{lemma_version_chars, render_version, wf_version, VersionView};

verus! {

// ---------------------------------------------------------------------------
// The canonical token sequence of a rendered descriptor
// ---------------------------------------------------------------------------

/// Well-formedness of every node of a tree, regardless of which fields are
/// present.
pub open spec fn wf_rec(v: DescView) -> bool
    decreases v,
{
    &&& wf_fields(v)
    &&& forall|i: int| 0 <= i < v.generics.len() ==> wf_rec(#[trigger] v.generics[i])
}

/// The tokens of one rendered optional text field.
pub open spec fn field_chunk_tokens(label: Seq<char>, f: Option<Seq<char>>) -> Seq<TokenView> {
    match f {
        Some(s) => seq![TokenView::Comma, TokenView::Text(label + s)],
        None => Seq::empty(),
    }
}

/// The tokens of one rendered optional version field.
pub open spec fn version_chunk_tokens(label: Seq<char>, f: Option<VersionView>) -> Seq<TokenView> {
    match f {
        Some(v) => seq![TokenView::Comma, TokenView::Text(label + render_version(v))],
        None => Seq::empty(),
    }
}

/// The tokens of a node's field suffix.
pub open spec fn canon_field_tokens(v: DescView) -> Seq<TokenView> {
    field_chunk_tokens(crate_marker(), v.crate_name) + field_chunk_tokens(
        module_marker(),
        v.crate_module,
    ) + version_chunk_tokens(version_marker(), v.crate_version) + version_chunk_tokens(
        rustc_marker(),
        v.rustc_version,
    )
}

/// The token sequence a rendered descriptor splits into.
pub open spec fn canon_tokens(v: DescView) -> Seq<TokenView>
    decreases v, 0int,
{
    seq![TokenView::Text(v.name)] + canon_generic_tokens(v.generics) + canon_field_tokens(v)
}

/// The tokens of a generic block.
pub open spec fn canon_generic_tokens(gs: Seq<DescView>) -> Seq<TokenView>
    decreases gs, 2int,
{
    if gs.len() == 0 {
        Seq::empty()
    } else {
        seq![TokenView::Open] + canon_list_tokens(gs) + seq![TokenView::Close]
    }
}

/// The tokens of the members of a generic block, separated by `;`.
pub open spec fn canon_list_tokens(gs: Seq<DescView>) -> Seq<TokenView>
    decreases gs, 1int,
{
    if gs.len() == 0 {
        Seq::empty()
    } else if gs.len() == 1 {
        canon_tokens(gs[0])
    } else {
        canon_list_tokens(gs.drop_last()) + seq![TokenView::Next] + canon_tokens(gs.last())
    }
}

// ---------------------------------------------------------------------------
// Tokenizing a rendering gives the canonical token sequence
// ---------------------------------------------------------------------------

/// One rendered field, followed by anything that starts with a delimiter,
/// tokenizes to its two tokens and the rest.
proof fn lemma_tokenize_chunk(label: Seq<char>, value: Seq<char>, rest: Seq<char>)
    requires
        label.len() > 0,
        !is_space(label[0]),
        !is_space((label + value).last()),
        no_delims(label + value),
        rest.len() == 0 || is_delim(rest[0]),
    ensures
        spec_tokenize((comma_sep() + label + value) + rest) == seq![
            TokenView::Comma,
            TokenView::Text(label + value),
        ] + spec_tokenize(rest),
{
    let body = label + value;
    let s = (comma_sep() + label + value) + rest;
    assert(s =~= seq![','] + (seq![' '] + (body + rest)));
    lemma_tokenize_delim_head(seq![','] + (seq![' '] + (body + rest)));
    assert((seq![','] + (seq![' '] + (body + rest)))[0] == ',');
    assert((seq![','] + (seq![' '] + (body + rest))).subrange(
        1,
        (seq![','] + (seq![' '] + (body + rest))).len() as int,
    ) =~= seq![' '] + (body + rest));
    lemma_tokenize_space_head(body + rest);
    // the body is one text token
    assert(trimmed(body) == body) by {
        lemma_trim_stable_iff(body);
        assert(body[0] == label[0]);
    }
    if rest.len() == 0 {
        assert(body + rest =~= body);
        lemma_tokenize_text(body);
        assert(spec_tokenize(s) =~= seq![TokenView::Comma, TokenView::Text(body)] + spec_tokenize(
            rest,
        )) by {
            lemma_tokenize_no_delim(rest);
            assert(trimmed(rest).len() == 0) by {
                crate::text::lemma_trimmed_empty_iff(rest);
            }
        }
    } else {
        lemma_tokenize_concat(body, rest);
        lemma_tokenize_text(body);
        assert(spec_tokenize(s) =~= seq![TokenView::Comma, TokenView::Text(body)] + spec_tokenize(
            rest,
        ));
    }
}

/// The character-level facts about a marker needed to treat a rendered field
/// as a chunk.
proof fn lemma_marker_facts()
    ensures
        no_delims(crate_marker()),
        no_delims(module_marker()),
        no_delims(version_marker()),
        no_delims(rustc_marker()),
        !is_space(crate_marker()[0]),
        !is_space(module_marker()[0]),
        !is_space(version_marker()[0]),
        !is_space(rustc_marker()[0]),
        !is_space(crate_marker().last()),
        !is_space(module_marker().last()),
        !is_space(version_marker().last()),
        !is_space(rustc_marker().last()),
{
}

/// A present text field makes a chunk: its value is delimiter-free and
/// trim-stable.
proof fn lemma_text_chunk_shape(label: Seq<char>, value: Seq<char>, rest: Seq<char>)
    requires
        label == crate_marker() || label == module_marker(),
        field_value_ok(value),
        rest.len() == 0 || is_delim(rest[0]),
    ensures
        spec_tokenize((comma_sep() + label + value) + rest) == seq![
            TokenView::Comma,
            TokenView::Text(label + value),
        ] + spec_tokenize(rest),
{
    lemma_marker_facts();
    let body = label + value;
    assert(no_delims(body)) by {
        assert forall|i: int| 0 <= i < body.len() implies !is_delim(#[trigger] body[i]) by {
            if i < label.len() {
                assert(body[i] == label[i]);
            } else {
                assert(body[i] == value[i - label.len()]);
            }
        }
    }
    assert(!is_space(body.last())) by {
        if value.len() == 0 {
            assert(body.last() == label.last());
        } else {
            assert(body.last() == value.last());
            lemma_trim_stable_iff(value);
        }
    }
    lemma_tokenize_chunk(label, value, rest);
}

/// A present version field makes a chunk: its rendering is delimiter-free,
/// non-empty and has no whitespace.
proof fn lemma_version_chunk_shape(label: Seq<char>, w: VersionView, rest: Seq<char>)
    requires
        label == version_marker() || label == rustc_marker(),
        wf_version(w),
        rest.len() == 0 || is_delim(rest[0]),
    ensures
        spec_tokenize((comma_sep() + label + render_version(w)) + rest) == seq![
            TokenView::Comma,
            TokenView::Text(label + render_version(w)),
        ] + spec_tokenize(rest),
{
    lemma_marker_facts();
    lemma_version_chars(w);
    let value = render_version(w);
    let body = label + value;
    assert(value.len() > 0);
    assert(no_delims(body)) by {
        assert forall|i: int| 0 <= i < body.len() implies !is_delim(#[trigger] body[i]) by {
            if i < label.len() {
                assert(body[i] == label[i]);
            } else {
                assert(body[i] == value[i - label.len()]);
            }
        }
    }
    assert(!is_space(body.last())) by {
        assert(body.last() == value.last());
    }
    lemma_tokenize_chunk(label, value, rest);
}

/// One optional text field followed by a delimiter-headed rest.
proof fn lemma_step_text(label: Seq<char>, f: Option<Seq<char>>, w: Seq<char>)
    requires
        label == crate_marker() || label == module_marker(),
        f matches Some(s) ==> field_value_ok(s),
        w.len() == 0 || is_delim(w[0]),
    ensures
        spec_tokenize(render_opt_text(label, f) + w) == field_chunk_tokens(label, f)
            + spec_tokenize(w),
        (render_opt_text(label, f) + w).len() == 0 || is_delim((render_opt_text(label, f) + w)[0]),
{
    match f {
        Some(s) => {
            assert(render_opt_text(label, f) + w =~= (comma_sep() + label + s) + w);
            lemma_text_chunk_shape(label, s, w);
            assert((render_opt_text(label, f) + w)[0] == ',');
        },
        None => {
            assert(render_opt_text(label, f) + w =~= w);
        },
    }
}

/// One optional version field followed by a delimiter-headed rest.
proof fn lemma_step_version(label: Seq<char>, f: Option<VersionView>, w: Seq<char>)
    requires
        label == version_marker() || label == rustc_marker(),
        f matches Some(x) ==> wf_version(x),
        w.len() == 0 || is_delim(w[0]),
    ensures
        spec_tokenize(render_opt_version(label, f) + w) == version_chunk_tokens(label, f)
            + spec_tokenize(w),
        (render_opt_version(label, f) + w).len() == 0 || is_delim(
            (render_opt_version(label, f) + w)[0],
        ),
{
    match f {
        Some(x) => {
            assert(render_opt_version(label, f) + w =~= (comma_sep() + label + render_version(x))
                + w);
            lemma_version_chunk_shape(label, x, w);
            assert((render_opt_version(label, f) + w)[0] == ',');
        },
        None => {
            assert(render_opt_version(label, f) + w =~= w);
        },
    }
}

/// The rendered field suffix of a node, followed by anything that starts
/// with a delimiter, tokenizes to the canonical field tokens and the rest.
#[verifier::rlimit(100)]
proof fn lemma_tokenize_fields(v: DescView, w: Seq<char>)
    requires
        wf_fields(v),
        w.len() == 0 || is_delim(w[0]),
    ensures
        spec_tokenize(render_fields(v) + w) == canon_field_tokens(v) + spec_tokenize(w),
        (render_fields(v) + w).len() == 0 || is_delim((render_fields(v) + w)[0]),
{
    let c_r = render_opt_version(rustc_marker(), v.rustc_version);
    let c_v = render_opt_version(version_marker(), v.crate_version);
    let c_m = render_opt_text(module_marker(), v.crate_module);
    let c_c = render_opt_text(crate_marker(), v.crate_name);
    let w_r = c_r + w;
    let w_v = c_v + w_r;
    let w_m = c_m + w_v;
    let w_c = c_c + w_m;
    lemma_step_version(rustc_marker(), v.rustc_version, w);
    lemma_step_version(version_marker(), v.crate_version, w_r);
    lemma_step_text(module_marker(), v.crate_module, w_v);
    lemma_step_text(crate_marker(), v.crate_name, w_m);
    assert(render_fields(v) + w =~= w_c);
    assert(spec_tokenize(w_c) =~= canon_field_tokens(v) + spec_tokenize(w));
}

/// Tokenizing a rendered descriptor, followed by anything that starts with a
/// delimiter, yields its canonical tokens and the rest.
#[verifier::rlimit(100)]
proof fn lemma_tokenize_node(v: DescView, w: Seq<char>)
    requires
        wf_rec(v),
        w.len() == 0 || is_delim(w[0]),
    ensures
        spec_tokenize(spec_render(v) + w) == canon_tokens(v) + spec_tokenize(w),
    decreases v, 3int,
{
    let fw = render_fields(v) + w;
    lemma_tokenize_fields(v, w);
    let gw = render_generics(v.generics) + fw;
    assert(decreases_to!(v => v.generics));
    lemma_tokenize_generics(v.generics, fw);
    assert(spec_tokenize(gw) == canon_generic_tokens(v.generics) + canon_field_tokens(v)
        + spec_tokenize(w));
    assert(gw.len() == 0 || is_delim(gw[0])) by {
        if v.generics.len() > 0 {
            assert(gw[0] == '<');
        }
    }
    assert(spec_render(v) + w =~= v.name + gw);
    if gw.len() == 0 {
        assert(v.name + gw =~= v.name);
        lemma_tokenize_text(v.name);
        assert(spec_tokenize(gw) =~= Seq::<TokenView>::empty()) by {
            lemma_tokenize_no_delim(gw);
            crate::text::lemma_trimmed_empty_iff(gw);
        }
        assert(spec_tokenize(spec_render(v) + w) =~= canon_tokens(v) + spec_tokenize(w));
    } else {
        lemma_tokenize_concat(v.name, gw);
        lemma_tokenize_text(v.name);
        assert(spec_tokenize(spec_render(v) + w) =~= canon_tokens(v) + spec_tokenize(w));
    }
}

/// Companion for the generic block.
#[verifier::rlimit(100)]
proof fn lemma_tokenize_generics(gs: Seq<DescView>, x: Seq<char>)
    requires
        forall|i: int| 0 <= i < gs.len() ==> wf_rec(#[trigger] gs[i]),
        x.len() == 0 || is_delim(x[0]),
    ensures
        spec_tokenize(render_generics(gs) + x) == canon_generic_tokens(gs) + spec_tokenize(x),
    decreases gs, 2int,
{
    if gs.len() == 0 {
        assert(render_generics(gs) + x =~= x);
    } else {
        let inner = render_list(gs) + (seq!['>'] + x);
        assert(render_generics(gs) + x =~= seq!['<'] + inner);
        lemma_tokenize_delim_head(seq!['<'] + inner);
        assert((seq!['<'] + inner)[0] == '<');
        assert((seq!['<'] + inner).subrange(1, (seq!['<'] + inner).len() as int) =~= inner);
        lemma_tokenize_list(gs, seq!['>'] + x);
        lemma_tokenize_delim_head(seq!['>'] + x);
        assert((seq!['>'] + x)[0] == '>');
        assert((seq!['>'] + x).subrange(1, (seq!['>'] + x).len() as int) =~= x);
        assert(spec_tokenize(render_generics(gs) + x) =~= canon_generic_tokens(gs)
            + spec_tokenize(x));
    }
}

/// Companion for the member list of a generic block.
proof fn lemma_tokenize_list(gs: Seq<DescView>, y: Seq<char>)
    requires
        gs.len() > 0,
        forall|i: int| 0 <= i < gs.len() ==> wf_rec(#[trigger] gs[i]),
        y.len() > 0,
        is_delim(y[0]),
    ensures
        spec_tokenize(render_list(gs) + y) == canon_list_tokens(gs) + spec_tokenize(y),
    decreases gs, 1int,
{
    if gs.len() == 1 {
        assert(decreases_to!(gs => gs[0]));
        lemma_tokenize_node(gs[0], y);
        assert(render_list(gs) + y =~= spec_render(gs[0]) + y);
    } else {
        let last = gs.last();
        let front = gs.drop_last();
        let z = seq![';'] + (seq![' '] + (spec_render(last) + y));
        assert(render_list(gs) + y =~= render_list(front) + z);
        assert(forall|i: int| 0 <= i < front.len() ==> wf_rec(#[trigger] front[i])) by {
            assert forall|i: int| 0 <= i < front.len() implies wf_rec(#[trigger] front[i]) by {
                assert(front[i] == gs[i]);
            }
        }
        assert(z[0] == ';');
        lemma_tokenize_list(front, z);
        lemma_tokenize_delim_head(z);
        assert(z.subrange(1, z.len() as int) =~= seq![' '] + (spec_render(last) + y));
        lemma_tokenize_space_head(spec_render(last) + y);
        assert(decreases_to!(gs => gs[gs.len() - 1]));
        lemma_tokenize_node(last, y);
        assert(spec_tokenize(render_list(gs) + y) =~= canon_list_tokens(gs) + spec_tokenize(y));
    }
}

/// Tokenizing the rendering of a well-formed tree gives exactly its
/// canonical token sequence.
pub proof fn lemma_tokenize_render(v: DescView)
    requires
        wf_rec(v),
    ensures
        spec_tokenize(spec_render(v)) == canon_tokens(v),
{
    lemma_tokenize_node(v, Seq::empty());
    assert(spec_render(v) + Seq::<char>::empty() =~= spec_render(v));
    assert(spec_tokenize(Seq::<char>::empty()) =~= Seq::<TokenView>::empty()) by {
        lemma_tokenize_no_delim(Seq::empty());
        crate::text::lemma_trimmed_empty_iff(Seq::empty());
    }
}


// ---------------------------------------------------------------------------
// How the parser reads back one canonical field token
// ---------------------------------------------------------------------------

/// No field value has been collected yet.
pub open spec fn empty_fields() -> FieldsView {
    FieldsView { crate_name: None, crate_module: None, version_text: None, rustc_text: None }
}

/// A marker prefixed to a string occurs there first at position zero.
proof fn lemma_marker_at_zero(label: Seq<char>, value: Seq<char>)
    requires
        label.len() > 0,
    ensures
        has_sub(label + value, label),
        first_sub(label + value, label) == 0,
{
    let s = label + value;
    assert(occurs_at(s, label, 0)) by {
        assert(s.subrange(0, label.len() as int) =~= label);
    }
    let q = |i: int| occurs_at(s, label, i);
    assert(least_idx_at(s.len() as int + 1, q, 0));
    lemma_least_idx_unique(s.len() as int + 1, q, 0);
}

/// If a marker occurred in `label + value`, it would either start inside the
/// label or lie wholly inside the value.
proof fn lemma_no_sub_cases(label: Seq<char>, value: Seq<char>, m: Seq<char>, p: int)
    requires
        occurs_at(label + value, m, p),
        m.len() > 0,
    ensures
        forall|j: int|
            0 <= j < m.len() && p + j < label.len() ==> (label + value)[p + j] == label[p + j]
                && #[trigger] m[j] == label[p + j],
        p >= label.len() ==> occurs_at(value, m, p - label.len()),
{
    let s = label + value;
    assert forall|j: int|
        0 <= j < m.len() && p + j < label.len() implies s[p + j] == label[p + j] && #[trigger] m[j]
        == label[p + j] by {
        assert(s.subrange(p, p + m.len() as int)[j] == m[j]);
        assert(s[p + j] == m[j]);
    }
    if p >= label.len() {
        assert(occurs_at(value, m, p - label.len())) by {
            assert(value.subrange(p - label.len(), p - label.len() + m.len() as int) =~= s.subrange(
                p,
                p + m.len() as int,
            ));
        }
    }
}

/// Reading a `Crate=value` token records the crate name.
proof fn lemma_apply_crate(f: FieldsView, value: Seq<char>)
    requires
        f.crate_name is None,
        field_value_ok(value),
    ensures
        apply_fields(f, crate_marker() + value) == Ok::<FieldsView, ErrView>(
            FieldsView { crate_name: Some(value), ..f },
        ),
{
    let s = crate_marker() + value;
    lemma_marker_at_zero(crate_marker(), value);
    assert(s.subrange(0, 0) =~= Seq::<char>::empty());
    crate::text::lemma_trimmed_empty_iff(Seq::<char>::empty());
    assert(s.subrange(6, s.len() as int) =~= value);
    assert(apply_fields(f, s) =~= Ok::<FieldsView, ErrView>(
        FieldsView { crate_name: Some(value), ..f },
    ));
}

/// A module value free of `Crate=` keeps the whole token free of it.
proof fn lemma_module_token_no_crate(value: Seq<char>)
    requires
        !has_sub(value, crate_marker()),
    ensures
        !has_sub(module_marker() + value, crate_marker()),
{
    let s = module_marker() + value;
    assert forall|p: int| 0 <= p < s.len() + 1 implies !occurs_at(s, crate_marker(), p) by {
        if occurs_at(s, crate_marker(), p) {
            assert(s.subrange(p, p + 6)[0] == crate_marker()[0]);
            assert(s[p] == 'C');
            if p < 7 {
                assert(s[p] == module_marker()[p]);
                assert(false);
            } else {
                assert(occurs_at(value, crate_marker(), p - 7)) by {
                    assert(value.subrange(p - 7, p - 1) =~= s.subrange(p, p + 6));
                }
                lemma_least_idx_exists(
                    value.len() as int + 1,
                    |i: int| occurs_at(value, crate_marker(), i),
                    p - 7,
                );
            }
        }
    }
    if has_sub(s, crate_marker()) {
        let l = first_sub(s, crate_marker());
        assert(least_idx_at(s.len() as int + 1, |i: int| occurs_at(s, crate_marker(), i), l));
    }
}

/// Reading a `Module=value` token records the module, provided the value
/// does not itself contain `Crate=`.
#[verifier::rlimit(100)]
proof fn lemma_apply_module(f: FieldsView, value: Seq<char>)
    requires
        f.crate_module is None,
        field_value_ok(value),
        !has_sub(value, crate_marker()),
    ensures
        apply_fields(f, module_marker() + value) == Ok::<FieldsView, ErrView>(
            FieldsView { crate_module: Some(value), ..f },
        ),
{
    let s = module_marker() + value;
    lemma_module_token_no_crate(value);
    lemma_marker_at_zero(module_marker(), value);
    assert(s.subrange(0, 0) =~= Seq::<char>::empty());
    crate::text::lemma_trimmed_empty_iff(Seq::<char>::empty());
    assert(trimmed(s.subrange(0, 0)).len() == 0);
    assert(s.subrange(7, s.len() as int) =~= value);
    assert(apply_fields(f, s) == Ok::<FieldsView, ErrView>(
        FieldsView { crate_module: Some(trimmed(value)), ..f },
    ));
    assert(FieldsView { crate_module: Some(trimmed(value)), ..f } =~= FieldsView {
        crate_module: Some(value),
        ..f
    });
}

/// A rendered version contains no `'='`, so no earlier marker can occur in
/// a version field token.
proof fn lemma_version_token_no_marker(label: Seq<char>, w: VersionView, m: Seq<char>)
    requires
        wf_version(w),
        label == version_marker() || label == rustc_marker(),
        m == crate_marker() || m == module_marker() || m == version_marker(),
        m != label,
    ensures
        !has_sub(label + render_version(w), m),
{
    let value = render_version(w);
    let s = label + value;
    lemma_version_chars(w);
    let eq_at = (m.len() - 1) as int;
    assert(m[eq_at] == '=');
    assert forall|p: int| 0 <= p < s.len() + 1 implies !occurs_at(s, m, p) by {
        if occurs_at(s, m, p) {
            // the '=' of the occurrence must be the one '=' of the token
            assert(s.subrange(p, p + m.len() as int)[eq_at] == m[eq_at]);
            assert(s[p + eq_at] == '=');
            if p + eq_at < label.len() {
                assert(s[p + eq_at] == label[p + eq_at]);
                assert(label[p + eq_at] == '=' ==> p + eq_at == label.len() - 1);
                assert(p + eq_at == label.len() - 1);
                assert(s.subrange(p, p + m.len() as int)[0] == m[0]);
                assert(s[p] == m[0]);
                if p < label.len() {
                    assert(s[p] == label[p]);
                }
                assert(false);
            } else {
                assert(s[p + eq_at] == value[p + eq_at - label.len()]);
                assert(crate::version::version_char(value[p + eq_at - label.len()]));
                assert(false);
            }
        }
    }
    if has_sub(s, m) {
        let l = first_sub(s, m);
        assert(least_idx_at(s.len() as int + 1, |i: int| occurs_at(s, m, i), l));
    }
}

/// Reading a `Version=...` token records the raw version text.
#[verifier::rlimit(100)]
proof fn lemma_apply_version(f: FieldsView, w: VersionView)
    requires
        f.version_text is None,
        wf_version(w),
    ensures
        apply_fields(f, version_marker() + render_version(w)) == Ok::<FieldsView, ErrView>(
            FieldsView { version_text: Some(render_version(w)), ..f },
        ),
{
    let value = render_version(w);
    let s = version_marker() + value;
    lemma_version_token_no_marker(version_marker(), w, crate_marker());
    lemma_version_token_no_marker(version_marker(), w, module_marker());
    lemma_marker_at_zero(version_marker(), value);
    assert(!has_sub(s, crate_marker()));
    assert(!has_sub(s, module_marker()));
    assert(has_sub(s, version_marker()));
    assert(first_sub(s, version_marker()) == 0);
    assert(s.subrange(0, 0) =~= Seq::<char>::empty());
    crate::text::lemma_trimmed_empty_iff(Seq::<char>::empty());
    assert(trimmed(s.subrange(0, 0)).len() == 0);
    assert(s.subrange(8, s.len() as int) =~= value);
    assert(trimmed(value) == value) by {
        lemma_version_chars(w);
        lemma_trim_stable_iff(value);
    }
    assert(apply_fields(f, s) == Ok::<FieldsView, ErrView>(
        FieldsView { version_text: Some(trimmed(value)), ..f },
    ));
    assert(FieldsView { version_text: Some(trimmed(value)), ..f } =~= FieldsView {
        version_text: Some(value),
        ..f
    });
}

/// Reading a `Rustc=...` token records the raw compiler-version text.
#[verifier::rlimit(100)]
proof fn lemma_apply_rustc(f: FieldsView, w: VersionView)
    requires
        f.rustc_text is None,
        wf_version(w),
    ensures
        apply_fields(f, rustc_marker() + render_version(w)) == Ok::<FieldsView, ErrView>(
            FieldsView { rustc_text: Some(render_version(w)), ..f },
        ),
{
    let value = render_version(w);
    let s = rustc_marker() + value;
    lemma_version_token_no_marker(rustc_marker(), w, crate_marker());
    lemma_version_token_no_marker(rustc_marker(), w, module_marker());
    lemma_version_token_no_marker(rustc_marker(), w, version_marker());
    lemma_marker_at_zero(rustc_marker(), value);
    assert(!has_sub(s, crate_marker()));
    assert(!has_sub(s, module_marker()));
    assert(!has_sub(s, version_marker()));
    assert(has_sub(s, rustc_marker()));
    assert(first_sub(s, rustc_marker()) == 0);
    assert(s.subrange(0, 0) =~= Seq::<char>::empty());
    crate::text::lemma_trimmed_empty_iff(Seq::<char>::empty());
    assert(trimmed(s.subrange(0, 0)).len() == 0);
    assert(s.subrange(6, s.len() as int) =~= value);
    assert(trimmed(value) == value) by {
        lemma_version_chars(w);
        lemma_trim_stable_iff(value);
    }
    assert(apply_fields(f, s) == Ok::<FieldsView, ErrView>(
        FieldsView { rustc_text: Some(trimmed(value)), ..f },
    ));
    assert(FieldsView { rustc_text: Some(trimmed(value)), ..f } =~= FieldsView {
        rustc_text: Some(value),
        ..f
    });
}


// ---------------------------------------------------------------------------
// Walking the field suffix of a canonical token sequence
// ---------------------------------------------------------------------------

/// The raw text a version field leaves in the parser state.
pub open spec fn vtext_of(o: Option<VersionView>) -> Option<Seq<char>> {
    match o {
        Some(w) => Some(render_version(w)),
        None => None,
    }
}

/// Parser fields after the crate chunk of `v` has been read.
pub open spec fn fields_after_crate(v: DescView) -> FieldsView {
    FieldsView { crate_name: v.crate_name, crate_module: None, version_text: None, rustc_text: None }
}

/// Parser fields after the module chunk of `v` has been read.
pub open spec fn fields_after_module(v: DescView) -> FieldsView {
    FieldsView {
        crate_name: v.crate_name,
        crate_module: v.crate_module,
        version_text: None,
        rustc_text: None,
    }
}

/// Parser fields after the version chunk of `v` has been read.
pub open spec fn fields_after_version(v: DescView) -> FieldsView {
    FieldsView {
        crate_name: v.crate_name,
        crate_module: v.crate_module,
        version_text: vtext_of(v.crate_version),
        rustc_text: None,
    }
}

/// Parser fields after every chunk of `v` has been read.
pub open spec fn fields_done(v: DescView) -> FieldsView {
    FieldsView {
        crate_name: v.crate_name,
        crate_module: v.crate_module,
        version_text: vtext_of(v.crate_version),
        rustc_text: vtext_of(v.rustc_version),
    }
}

/// Finishing a level whose fields are exactly those of `v` yields `v`.
proof fn lemma_finish_done(st: PState, v: DescView)
    requires
        wf_fields(v),
        st.name == v.name,
        st.generics == v.generics,
        st.fields == fields_done(v),
    ensures
        finish_node(st) == POutcome::Good(v, st.pos),
{
    match v.crate_version {
        Some(cv) => {
            lemma_parse_render_version(cv);
        },
        None => {},
    }
    match v.rustc_version {
        Some(rv) => {
            lemma_parse_render_version(rv);
        },
        None => {},
    }
    match finish_node(st) {
        POutcome::Good(d, np) => {
            assert(d =~= v);
            assert(np == st.pos);
        },
        POutcome::Bad(_, _) => {
            assert(false);
        },
    }
}

/// Reading the compiler-version chunk finishes the level.
#[verifier::rlimit(100)]
proof fn lemma_phase_rustc(ts: Seq<TokenView>, st: PState, v: DescView)
    requires
        wf_fields(v),
        st.gstate != GenState::Ongoing,
        st.name == v.name,
        st.generics == v.generics,
        st.fields == fields_after_version(v),
        0 <= st.pos,
        st.pos + version_chunk_tokens(rustc_marker(), v.rustc_version).len() <= ts.len(),
        ts.subrange(
            st.pos,
            st.pos + version_chunk_tokens(rustc_marker(), v.rustc_version).len(),
        ) == version_chunk_tokens(rustc_marker(), v.rustc_version),
        full_origin(v) || st.pos + version_chunk_tokens(rustc_marker(), v.rustc_version).len()
            == ts.len(),
    ensures
        spec_parse_fields(ts, st) == POutcome::Good(
            v,
            st.pos + version_chunk_tokens(rustc_marker(), v.rustc_version).len(),
        ),
{
    let ck = version_chunk_tokens(rustc_marker(), v.rustc_version);
    match v.rustc_version {
        None => {
            assert(!full_origin(v));
            assert(st.pos == ts.len());
            assert(st.fields =~= fields_done(v));
            assert(spec_parse_fields(ts, st) == finish_node(st));
            lemma_finish_done(st, v);
        },
        Some(rv) => {
            assert(ck.len() == 2);
            assert(ts[st.pos] == ck[0]) by {
                assert(ts.subrange(st.pos, st.pos + 2)[0] == ck[0]);
            }
            assert(ts[st.pos + 1] == ck[1]) by {
                assert(ts.subrange(st.pos, st.pos + 2)[1] == ck[1]);
            }
            let st2 = PState { pos: st.pos + 1, gstate: GenState::Impossible, ..st };
            assert(!all_origin(st2.fields));
            assert(spec_parse_fields(ts, st) == spec_parse_fields(ts, st2));
            lemma_apply_rustc(st.fields, rv);
            let f3 = FieldsView { rustc_text: Some(render_version(rv)), ..st.fields };
            let st3 = PState { pos: st.pos + 2, gstate: GenState::Impossible, fields: f3, ..st2 };
            assert(f3 =~= fields_done(v));
            assert(apply_fields(st2.fields, rustc_marker() + render_version(rv))
                == Ok::<FieldsView, ErrView>(f3));
            if all_origin(f3) {
                assert(spec_parse_fields(ts, st2) == finish_node(st3));
            } else {
                assert(spec_parse_fields(ts, st2) == spec_parse_fields(ts, st3));
                assert(!full_origin(v));
                assert(st3.pos == ts.len());
                assert(spec_parse_fields(ts, st3) == finish_node(st3));
            }
            lemma_finish_done(st3, v);
        },
    }
}

/// Reading the crate-version chunk, then the rest of the suffix.
#[verifier::rlimit(100)]
proof fn lemma_phase_version(ts: Seq<TokenView>, st: PState, v: DescView)
    requires
        wf_fields(v),
        st.gstate != GenState::Ongoing,
        st.name == v.name,
        st.generics == v.generics,
        st.fields == fields_after_module(v),
        0 <= st.pos,
        st.pos + version_chunk_tokens(version_marker(), v.crate_version).len()
            + version_chunk_tokens(rustc_marker(), v.rustc_version).len() <= ts.len(),
        ts.subrange(
            st.pos,
            st.pos + version_chunk_tokens(version_marker(), v.crate_version).len()
                + version_chunk_tokens(rustc_marker(), v.rustc_version).len(),
        ) == version_chunk_tokens(version_marker(), v.crate_version) + version_chunk_tokens(
            rustc_marker(),
            v.rustc_version,
        ),
        full_origin(v) || st.pos + version_chunk_tokens(version_marker(), v.crate_version).len()
            + version_chunk_tokens(rustc_marker(), v.rustc_version).len() == ts.len(),
    ensures
        spec_parse_fields(ts, st) == POutcome::Good(
            v,
            st.pos + version_chunk_tokens(version_marker(), v.crate_version).len()
                + version_chunk_tokens(rustc_marker(), v.rustc_version).len(),
        ),
{
    let ckv = version_chunk_tokens(version_marker(), v.crate_version);
    let ckr = version_chunk_tokens(rustc_marker(), v.rustc_version);
    assert(ts.subrange(st.pos + ckv.len(), st.pos + ckv.len() + ckr.len()) =~= ckr) by {
        assert forall|j: int| 0 <= j < ckr.len() implies ts.subrange(
            st.pos + ckv.len(),
            st.pos + ckv.len() + ckr.len(),
        )[j] == ckr[j] by {
            assert(ts.subrange(st.pos, st.pos + ckv.len() + ckr.len())[ckv.len() + j] == (ckv
                + ckr)[ckv.len() + j]);
        }
    }
    match v.crate_version {
        None => {
            assert(st.fields =~= fields_after_version(v));
            assert(ckv.len() == 0);
            lemma_phase_rustc(ts, st, v);
        },
        Some(cv) => {
            assert(ckv.len() == 2);
            assert(ts[st.pos] == ckv[0]) by {
                assert(ts.subrange(st.pos, st.pos + ckv.len() + ckr.len())[0] == (ckv + ckr)[0]);
            }
            assert(ts[st.pos + 1] == ckv[1]) by {
                assert(ts.subrange(st.pos, st.pos + ckv.len() + ckr.len())[1] == (ckv + ckr)[1]);
            }
            let st2 = PState { pos: st.pos + 1, gstate: GenState::Impossible, ..st };
            assert(!all_origin(st2.fields));
            assert(spec_parse_fields(ts, st) == spec_parse_fields(ts, st2));
            lemma_apply_version(st.fields, cv);
            let f3 = FieldsView { version_text: Some(render_version(cv)), ..st.fields };
            let st3 = PState { pos: st.pos + 2, gstate: GenState::Impossible, fields: f3, ..st2 };
            assert(f3 =~= fields_after_version(v));
            assert(apply_fields(st2.fields, version_marker() + render_version(cv))
                == Ok::<FieldsView, ErrView>(f3));
            assert(!all_origin(f3));
            assert(spec_parse_fields(ts, st2) == spec_parse_fields(ts, st3));
            lemma_phase_rustc(ts, st3, v);
        },
    }
}

/// Reading the module chunk, then the rest of the suffix.
#[verifier::rlimit(100)]
proof fn lemma_phase_module(ts: Seq<TokenView>, st: PState, v: DescView)
    requires
        wf_fields(v),
        st.gstate != GenState::Ongoing,
        st.name == v.name,
        st.generics == v.generics,
        st.fields == fields_after_crate(v),
        0 <= st.pos,
        st.pos + field_chunk_tokens(module_marker(), v.crate_module).len()
            + version_chunk_tokens(version_marker(), v.crate_version).len()
            + version_chunk_tokens(rustc_marker(), v.rustc_version).len() <= ts.len(),
        ts.subrange(
            st.pos,
            st.pos + field_chunk_tokens(module_marker(), v.crate_module).len()
                + version_chunk_tokens(version_marker(), v.crate_version).len()
                + version_chunk_tokens(rustc_marker(), v.rustc_version).len(),
        ) == field_chunk_tokens(module_marker(), v.crate_module) + version_chunk_tokens(
            version_marker(),
            v.crate_version,
        ) + version_chunk_tokens(rustc_marker(), v.rustc_version),
        full_origin(v) || st.pos + field_chunk_tokens(module_marker(), v.crate_module).len()
            + version_chunk_tokens(version_marker(), v.crate_version).len()
            + version_chunk_tokens(rustc_marker(), v.rustc_version).len() == ts.len(),
    ensures
        spec_parse_fields(ts, st) == POutcome::Good(
            v,
            st.pos + field_chunk_tokens(module_marker(), v.crate_module).len()
                + version_chunk_tokens(version_marker(), v.crate_version).len()
                + version_chunk_tokens(rustc_marker(), v.rustc_version).len(),
        ),
{
    let ckm = field_chunk_tokens(module_marker(), v.crate_module);
    let ckv = version_chunk_tokens(version_marker(), v.crate_version);
    let ckr = version_chunk_tokens(rustc_marker(), v.rustc_version);
    assert(ts.subrange(st.pos + ckm.len(), st.pos + ckm.len() + ckv.len() + ckr.len()) =~= ckv
        + ckr) by {
        assert forall|j: int| 0 <= j < ckv.len() + ckr.len() implies ts.subrange(
            st.pos + ckm.len(),
            st.pos + ckm.len() + ckv.len() + ckr.len(),
        )[j] == (ckv + ckr)[j] by {
            assert(ts.subrange(st.pos, st.pos + ckm.len() + ckv.len() + ckr.len())[ckm.len() + j]
                == (ckm + ckv + ckr)[ckm.len() + j]);
        }
    }
    match v.crate_module {
        None => {
            assert(st.fields =~= fields_after_module(v));
            assert(ckm.len() == 0);
            lemma_phase_version(ts, st, v);
        },
        Some(cm) => {
            assert(ckm.len() == 2);
            assert(ts[st.pos] == ckm[0]) by {
                assert(ts.subrange(st.pos, st.pos + ckm.len() + ckv.len() + ckr.len())[0] == (ckm
                    + ckv + ckr)[0]);
            }
            assert(ts[st.pos + 1] == ckm[1]) by {
                assert(ts.subrange(st.pos, st.pos + ckm.len() + ckv.len() + ckr.len())[1] == (ckm
                    + ckv + ckr)[1]);
            }
            let st2 = PState { pos: st.pos + 1, gstate: GenState::Impossible, ..st };
            assert(!all_origin(st2.fields));
            assert(spec_parse_fields(ts, st) == spec_parse_fields(ts, st2));
            lemma_apply_module(st.fields, cm);
            let f3 = FieldsView { crate_module: Some(cm), ..st.fields };
            let st3 = PState { pos: st.pos + 2, gstate: GenState::Impossible, fields: f3, ..st2 };
            assert(f3 =~= fields_after_module(v));
            assert(apply_fields(st2.fields, module_marker() + cm) == Ok::<FieldsView, ErrView>(
                f3,
            ));
            assert(!all_origin(f3));
            assert(spec_parse_fields(ts, st2) == spec_parse_fields(ts, st3));
            lemma_phase_version(ts, st3, v);
        },
    }
}

/// Reading the whole field suffix of `v`, starting from empty fields.
#[verifier::rlimit(100)]
proof fn lemma_phase_crate(ts: Seq<TokenView>, st: PState, v: DescView)
    requires
        wf_fields(v),
        st.gstate != GenState::Ongoing,
        st.name == v.name,
        st.generics == v.generics,
        st.fields == empty_fields(),
        0 <= st.pos,
        st.pos + canon_field_tokens(v).len() <= ts.len(),
        ts.subrange(st.pos, st.pos + canon_field_tokens(v).len()) == canon_field_tokens(v),
        full_origin(v) || st.pos + canon_field_tokens(v).len() == ts.len(),
    ensures
        spec_parse_fields(ts, st) == POutcome::Good(v, st.pos + canon_field_tokens(v).len()),
{
    let ckc = field_chunk_tokens(crate_marker(), v.crate_name);
    let ckm = field_chunk_tokens(module_marker(), v.crate_module);
    let ckv = version_chunk_tokens(version_marker(), v.crate_version);
    let ckr = version_chunk_tokens(rustc_marker(), v.rustc_version);
    assert(canon_field_tokens(v) == ckc + ckm + ckv + ckr);
    assert(ts.subrange(st.pos + ckc.len(), st.pos + canon_field_tokens(v).len()) =~= ckm + ckv
        + ckr) by {
        assert forall|j: int| 0 <= j < ckm.len() + ckv.len() + ckr.len() implies ts.subrange(
            st.pos + ckc.len(),
            st.pos + canon_field_tokens(v).len(),
        )[j] == (ckm + ckv + ckr)[j] by {
            assert(ts.subrange(st.pos, st.pos + canon_field_tokens(v).len())[ckc.len() + j] == (ckc
                + ckm + ckv + ckr)[ckc.len() + j]);
        }
    }
    match v.crate_name {
        None => {
            assert(st.fields =~= fields_after_crate(v));
            assert(ckc.len() == 0);
            lemma_phase_module(ts, st, v);
        },
        Some(cn) => {
            assert(ckc.len() == 2);
            assert(ts[st.pos] == ckc[0]) by {
                assert(ts.subrange(st.pos, st.pos + canon_field_tokens(v).len())[0] == (ckc + ckm
                    + ckv + ckr)[0]);
            }
            assert(ts[st.pos + 1] == ckc[1]) by {
                assert(ts.subrange(st.pos, st.pos + canon_field_tokens(v).len())[1] == (ckc + ckm
                    + ckv + ckr)[1]);
            }
            let st2 = PState { pos: st.pos + 1, gstate: GenState::Impossible, ..st };
            assert(!all_origin(st2.fields));
            assert(spec_parse_fields(ts, st) == spec_parse_fields(ts, st2));
            lemma_apply_crate(st.fields, cn);
            let f3 = FieldsView { crate_name: Some(cn), ..st.fields };
            let st3 = PState { pos: st.pos + 2, gstate: GenState::Impossible, fields: f3, ..st2 };
            assert(f3 =~= fields_after_crate(v));
            assert(apply_fields(st2.fields, crate_marker() + cn) == Ok::<FieldsView, ErrView>(f3));
            assert(!all_origin(f3));
            assert(spec_parse_fields(ts, st2) == spec_parse_fields(ts, st3));
            lemma_phase_module(ts, st3, v);
        },
    }
}


// ---------------------------------------------------------------------------
// Walking a generic block, and the round-trip law itself
// ---------------------------------------------------------------------------

/// The tokens after the first member of a generic block: `;` and a member,
/// repeated.
pub open spec fn canon_tail_tokens(rest: Seq<DescView>) -> Seq<TokenView>
    decreases rest,
{
    if rest.len() == 0 {
        Seq::empty()
    } else {
        seq![TokenView::Next] + canon_tokens(rest[0]) + canon_tail_tokens(
            rest.subrange(1, rest.len() as int),
        )
    }
}

proof fn lemma_tail_snoc(r: Seq<DescView>)
    requires
        r.len() > 0,
    ensures
        canon_tail_tokens(r) == canon_tail_tokens(r.drop_last()) + seq![TokenView::Next]
            + canon_tokens(r.last()),
    decreases r.len(),
{
    let tail = r.subrange(1, r.len() as int);
    if r.len() == 1 {
        assert(tail =~= Seq::<DescView>::empty());
        assert(r.drop_last() =~= Seq::<DescView>::empty());
        assert(canon_tail_tokens(r) =~= canon_tail_tokens(r.drop_last()) + seq![TokenView::Next]
            + canon_tokens(r.last()));
    } else {
        lemma_tail_snoc(tail);
        assert(tail.drop_last() =~= r.drop_last().subrange(1, r.drop_last().len() as int));
        assert(tail.last() == r.last());
        assert(r.drop_last()[0] == r[0]);
        assert(canon_tail_tokens(r) =~= canon_tail_tokens(r.drop_last()) + seq![TokenView::Next]
            + canon_tokens(r.last()));
    }
}

/// The member list of a generic block is its first member and the tail.
proof fn lemma_list_head(gs: Seq<DescView>)
    requires
        gs.len() > 0,
    ensures
        canon_list_tokens(gs) == canon_tokens(gs[0]) + canon_tail_tokens(
            gs.subrange(1, gs.len() as int),
        ),
    decreases gs.len(),
{
    if gs.len() == 1 {
        assert(gs.subrange(1, gs.len() as int) =~= Seq::<DescView>::empty());
        assert(canon_list_tokens(gs) =~= canon_tokens(gs[0]) + canon_tail_tokens(
            gs.subrange(1, gs.len() as int),
        ));
    } else {
        lemma_list_head(gs.drop_last());
        lemma_tail_snoc(gs.subrange(1, gs.len() as int));
        assert(gs.drop_last()[0] == gs[0]);
        assert(gs.drop_last().subrange(1, gs.drop_last().len() as int) =~= gs.subrange(
            1,
            gs.len() as int,
        ).drop_last());
        assert(gs.subrange(1, gs.len() as int).last() == gs.last());
        assert(canon_list_tokens(gs) =~= canon_tokens(gs[0]) + canon_tail_tokens(
            gs.subrange(1, gs.len() as int),
        ));
    }
}

/// A node of a well-formed subtree is itself round-trippable.
proof fn lemma_subtree_round_trippable(v: DescView)
    requires
        wf_subtree(v),
    ensures
        round_trippable(v),
{
}

/// A round-trippable tree is recursively well-formed.
proof fn lemma_round_trippable_wf_rec(v: DescView)
    requires
        round_trippable(v),
    ensures
        wf_rec(v),
    decreases v,
{
    assert forall|i: int| 0 <= i < v.generics.len() implies wf_rec(#[trigger] v.generics[i]) by {
        lemma_subtree_round_trippable(v.generics[i]);
        assert(decreases_to!(v => v.generics));
        lemma_round_trippable_wf_rec(v.generics[i]);
    }
}

/// Parsing a canonical token segment yields exactly the descriptor it
/// renders; the segment must either belong to a full-origin node (the parser
/// then stops by itself) or run to the very end of the tokens.
#[verifier::rlimit(100)]
proof fn lemma_parse_canon(v: DescView, ts: Seq<TokenView>, i: int)
    requires
        round_trippable(v),
        0 <= i,
        i + canon_tokens(v).len() <= ts.len(),
        ts.subrange(i, i + canon_tokens(v).len()) == canon_tokens(v),
        full_origin(v) || i + canon_tokens(v).len() == ts.len(),
    ensures
        spec_parse_type(ts, i) == POutcome::Good(v, i + canon_tokens(v).len()),
    decreases v, v.generics.len() + 1,
{
    let ct = canon_tokens(v);
    let gt = canon_generic_tokens(v.generics);
    let ft = canon_field_tokens(v);
    assert(ct == seq![TokenView::Text(v.name)] + gt + ft);
    assert(ts[i] == TokenView::Text(v.name)) by {
        assert(ts.subrange(i, i + ct.len())[0] == ct[0]);
    }
    let st0 = PState {
        pos: i + 1,
        gstate: GenState::Possible,
        name: v.name,
        fields: empty_fields(),
        generics: Seq::empty(),
    };
    assert(spec_parse_type(ts, i) == spec_parse_fields(ts, st0)) by {
        assert(empty_fields() =~= FieldsView {
            crate_name: None,
            crate_module: None,
            version_text: None,
            rustc_text: None,
        });
    }
    if v.generics.len() == 0 {
        assert(gt.len() == 0);
        assert(ts.subrange(i + 1, i + 1 + ft.len()) =~= ft) by {
            assert forall|j: int| 0 <= j < ft.len() implies ts.subrange(i + 1, i + 1 + ft.len())[j]
                == ft[j] by {
                assert(ts.subrange(i, i + ct.len())[1 + j] == ct[1 + j]);
            }
        }
        let stf = PState { generics: v.generics, ..st0 };
        assert(stf =~= st0);
        lemma_phase_crate(ts, stf, v);
    } else {
        lemma_list_head(v.generics);
        let g0 = v.generics[0];
        let tail = v.generics.subrange(1, v.generics.len() as int);
        assert(gt == seq![TokenView::Open] + (canon_tokens(g0) + canon_tail_tokens(tail))
            + seq![TokenView::Close]);
        assert(ts[i + 1] == TokenView::Open) by {
            assert(ts.subrange(i, i + ct.len())[1] == ct[1]);
        }
        // the first member
        assert(wf_subtree(g0));
        lemma_subtree_round_trippable(g0);
        assert(ts.subrange(i + 2, i + 2 + canon_tokens(g0).len()) =~= canon_tokens(g0)) by {
            assert forall|j: int| 0 <= j < canon_tokens(g0).len() implies ts.subrange(
                i + 2,
                i + 2 + canon_tokens(g0).len(),
            )[j] == canon_tokens(g0)[j] by {
                assert(ts.subrange(i, i + ct.len())[2 + j] == ct[2 + j]);
            }
        }
        assert(decreases_to!(v => v.generics));
        assert(decreases_to!(v.generics => v.generics[0]));
        lemma_parse_canon(g0, ts, i + 2);
        let j0 = i + 2 + canon_tokens(g0).len();
        let st2 = PState {
            pos: j0,
            gstate: GenState::Ongoing,
            generics: Seq::<DescView>::empty().push(g0),
            ..st0
        };
        assert(spec_parse_fields(ts, st0) == spec_parse_fields(ts, st2)) by {
            assert(!all_origin(st2.fields));
        }
        assert(st2.generics =~= v.generics.subrange(0, 1));
        let st2b = PState { generics: v.generics.subrange(0, 1), ..st2 };
        assert(st2b =~= st2);
        assert(ts.subrange(j0, i + ct.len()) =~= canon_tail_tokens(tail) + seq![TokenView::Close]
            + ft) by {
            assert forall|j: int|
                0 <= j < canon_tail_tokens(tail).len() + 1 + ft.len() implies ts.subrange(
                j0,
                i + ct.len(),
            )[j] == (canon_tail_tokens(tail) + seq![TokenView::Close] + ft)[j] by {
                assert(ts.subrange(i, i + ct.len())[2 + canon_tokens(g0).len() + j] == ct[2
                    + canon_tokens(g0).len() + j]);
            }
        }
        lemma_parse_block(ts, v, 1, j0, st2b);
    }
}

/// Walk the members of a generic block from the `k`-th on, then the closing
/// `>` and the field suffix.
#[verifier::rlimit(100)]
proof fn lemma_parse_block(ts: Seq<TokenView>, v: DescView, k: int, pos: int, st: PState)
    requires
        round_trippable(v),
        1 <= k <= v.generics.len(),
        st == (PState {
            pos: pos,
            gstate: GenState::Ongoing,
            name: v.name,
            fields: empty_fields(),
            generics: v.generics.subrange(0, k),
        }),
        0 <= pos,
        pos + canon_tail_tokens(v.generics.subrange(k, v.generics.len() as int)).len() + 1
            + canon_field_tokens(v).len() <= ts.len(),
        ts.subrange(
            pos,
            pos + canon_tail_tokens(v.generics.subrange(k, v.generics.len() as int)).len() + 1
                + canon_field_tokens(v).len(),
        ) == canon_tail_tokens(v.generics.subrange(k, v.generics.len() as int))
            + seq![TokenView::Close] + canon_field_tokens(v),
        full_origin(v) || pos + canon_tail_tokens(
            v.generics.subrange(k, v.generics.len() as int),
        ).len() + 1 + canon_field_tokens(v).len() == ts.len(),
    ensures
        spec_parse_fields(ts, st) == POutcome::Good(
            v,
            pos + canon_tail_tokens(v.generics.subrange(k, v.generics.len() as int)).len() + 1
                + canon_field_tokens(v).len(),
        ),
    decreases v, v.generics.len() - k,
{
    let rest = v.generics.subrange(k, v.generics.len() as int);
    let tt = canon_tail_tokens(rest);
    let ft = canon_field_tokens(v);
    let seg = tt + seq![TokenView::Close] + ft;
    if rest.len() == 0 {
        assert(tt.len() == 0);
        assert(ts[pos] == TokenView::Close) by {
            assert(ts.subrange(pos, pos + seg.len())[0] == seg[0]);
        }
        let st2 = PState { pos: pos + 1, gstate: GenState::Impossible, ..st };
        assert(spec_parse_fields(ts, st) == spec_parse_fields(ts, st2)) by {
            assert(!all_origin(st2.fields));
        }
        assert(st2.generics =~= v.generics);
        let st2b = PState { generics: v.generics, ..st2 };
        assert(st2b =~= st2);
        assert(ts.subrange(pos + 1, pos + 1 + ft.len()) =~= ft) by {
            assert forall|j: int| 0 <= j < ft.len() implies ts.subrange(
                pos + 1,
                pos + 1 + ft.len(),
            )[j] == ft[j] by {
                assert(ts.subrange(pos, pos + seg.len())[1 + j] == seg[1 + j]);
            }
        }
        lemma_phase_crate(ts, st2b, v);
    } else {
        let gk = rest[0];
        assert(gk == v.generics[k]);
        let tail2 = rest.subrange(1, rest.len() as int);
        assert(tail2 =~= v.generics.subrange(k + 1, v.generics.len() as int));
        assert(tt == seq![TokenView::Next] + canon_tokens(gk) + canon_tail_tokens(tail2));
        assert(ts[pos] == TokenView::Next) by {
            assert(ts.subrange(pos, pos + seg.len())[0] == seg[0]);
        }
        assert(wf_subtree(gk));
        lemma_subtree_round_trippable(gk);
        assert(ts.subrange(pos + 1, pos + 1 + canon_tokens(gk).len()) =~= canon_tokens(gk)) by {
            assert forall|j: int| 0 <= j < canon_tokens(gk).len() implies ts.subrange(
                pos + 1,
                pos + 1 + canon_tokens(gk).len(),
            )[j] == canon_tokens(gk)[j] by {
                assert(ts.subrange(pos, pos + seg.len())[1 + j] == seg[1 + j]);
            }
        }
        assert(decreases_to!(v => v.generics));
        assert(decreases_to!(v.generics => v.generics[k]));
        lemma_parse_canon(gk, ts, pos + 1);
        let j0 = pos + 1 + canon_tokens(gk).len();
        let st2 = PState { pos: j0, generics: st.generics.push(gk), ..st };
        assert(spec_parse_fields(ts, st) == spec_parse_fields(ts, st2)) by {
            assert(!all_origin(st2.fields));
        }
        assert(st2.generics =~= v.generics.subrange(0, k + 1));
        let st2b = PState { generics: v.generics.subrange(0, k + 1), ..st2 };
        assert(st2b =~= st2);
        assert(ts.subrange(j0, pos + seg.len()) =~= canon_tail_tokens(tail2)
            + seq![TokenView::Close] + ft) by {
            assert forall|j: int|
                0 <= j < canon_tail_tokens(tail2).len() + 1 + ft.len() implies ts.subrange(
                j0,
                pos + seg.len(),
            )[j] == (canon_tail_tokens(tail2) + seq![TokenView::Close] + ft)[j] by {
                assert(ts.subrange(pos, pos + seg.len())[1 + canon_tokens(gk).len() + j] == seg[1
                    + canon_tokens(gk).len() + j]);
            }
        }
        lemma_parse_block(ts, v, k + 1, j0, st2b);
    }
}

/// The round-trip law: serializing any round-trippable descriptor tree and
/// parsing the result yields exactly that tree.
///
/// Round-trippable means: every node's name and field values keep their
/// textual trace intact, and every nested descriptor carries its crate name,
/// crate version and compiler version, which is what lets the parser hand a
/// nested descriptor back to the enclosing level.
pub proof fn lemma_round_trip(v: DescView)
    requires
        round_trippable(v),
    ensures
        spec_parse_line(spec_render(v)) == Ok::<DescView, (ErrView, Seq<char>)>(v),
{
    lemma_round_trippable_wf_rec(v);
    lemma_tokenize_render(v);
    let ts = canon_tokens(v);
    assert(ts.subrange(0, ts.len() as int) =~= ts);
    lemma_parse_canon(v, ts, 0);
}


// ---------------------------------------------------------------------------
// The remaining laws: bracket omission, silent field omission, order
// ---------------------------------------------------------------------------

/// `s` contains neither `'<'` nor `'>'`.
pub open spec fn no_brackets(s: Seq<char>) -> bool {
    forall|i: int| 0 <= i < s.len() ==> #[trigger] s[i] != '<' && s[i] != '>'
}

proof fn lemma_no_brackets_concat(a: Seq<char>, b: Seq<char>)
    requires
        no_brackets(a),
        no_brackets(b),
    ensures
        no_brackets(a + b),
{
    assert forall|i: int| 0 <= i < (a + b).len() implies #[trigger] (a + b)[i] != '<' && (a + b)[i]
        != '>' by {
        if i < a.len() {
            assert((a + b)[i] == a[i]);
        } else {
            assert((a + b)[i] == b[i - a.len()]);
        }
    }
}

proof fn lemma_no_delims_no_brackets(s: Seq<char>)
    requires
        no_delims(s),
    ensures
        no_brackets(s),
{
}

/// One rendered optional text field has no brackets.
proof fn lemma_opt_text_no_brackets(label: Seq<char>, f: Option<Seq<char>>)
    requires
        no_delims(label),
        f matches Some(s) ==> no_delims(s),
    ensures
        no_brackets(render_opt_text(label, f)),
{
    match f {
        Some(s) => {
            assert(no_brackets(comma_sep()));
            lemma_no_delims_no_brackets(label);
            lemma_no_delims_no_brackets(s);
            lemma_no_brackets_concat(comma_sep(), label);
            lemma_no_brackets_concat(comma_sep() + label, s);
        },
        None => {},
    }
}

/// One rendered optional version field has no brackets.
proof fn lemma_opt_version_no_brackets(label: Seq<char>, f: Option<VersionView>)
    requires
        no_delims(label),
        f matches Some(w) ==> wf_version(w),
    ensures
        no_brackets(render_opt_version(label, f)),
{
    match f {
        Some(w) => {
            assert(no_brackets(comma_sep()));
            lemma_no_delims_no_brackets(label);
            lemma_version_chars(w);
            assert(no_brackets(render_version(w)));
            lemma_no_brackets_concat(comma_sep(), label);
            lemma_no_brackets_concat(comma_sep() + label, render_version(w));
        },
        None => {},
    }
}

/// A descriptor with no generic parameters serializes with no `<...>`
/// segment at all: its rendering is its name followed by its fields, and
/// neither `'<'` nor `'>'` occurs anywhere in it.
pub proof fn lemma_empty_generics_no_brackets(v: DescView)
    requires
        wf_fields(v),
        v.generics.len() == 0,
    ensures
        spec_render(v) == v.name + render_fields(v),
        no_brackets(spec_render(v)),
{
    assert(render_generics(v.generics) =~= Seq::<char>::empty());
    assert(spec_render(v) =~= v.name + render_fields(v));
    lemma_marker_facts();
    lemma_no_delims_no_brackets(v.name);
    lemma_opt_text_no_brackets(crate_marker(), v.crate_name);
    lemma_opt_text_no_brackets(module_marker(), v.crate_module);
    lemma_opt_version_no_brackets(version_marker(), v.crate_version);
    lemma_opt_version_no_brackets(rustc_marker(), v.rustc_version);
    lemma_no_brackets_concat(
        render_opt_text(crate_marker(), v.crate_name),
        render_opt_text(module_marker(), v.crate_module),
    );
    lemma_no_brackets_concat(
        render_opt_text(crate_marker(), v.crate_name) + render_opt_text(
            module_marker(),
            v.crate_module,
        ),
        render_opt_version(version_marker(), v.crate_version),
    );
    lemma_no_brackets_concat(
        render_opt_text(crate_marker(), v.crate_name) + render_opt_text(
            module_marker(),
            v.crate_module,
        ) + render_opt_version(version_marker(), v.crate_version),
        render_opt_version(rustc_marker(), v.rustc_version),
    );
    lemma_no_brackets_concat(v.name, render_fields(v));
}

/// A descriptor with every optional field absent and no generics serializes
/// to exactly its bare name: no trailing comma, no label, no trace.
pub proof fn lemma_bare_name(v: DescView)
    requires
        v.generics.len() == 0,
        v.crate_name is None,
        v.crate_module is None,
        v.crate_version is None,
        v.rustc_version is None,
    ensures
        spec_render(v) == v.name,
{
    assert(spec_render(v) =~= v.name);
}

/// Order preservation: a descriptor with generics `[a, b, c]` lists them in
/// exactly that order, joined by `"; "`, inside one bracket pair right after
/// the name, and parsing the rendering back yields the same three generics
/// in the same order.
pub proof fn lemma_order_preserved(v: DescView, a: DescView, b: DescView, c: DescView)
    requires
        round_trippable(v),
        v.generics == seq![a, b, c],
    ensures
        spec_render(v) == v.name + (seq!['<'] + spec_render(a) + seq![';', ' '] + spec_render(b)
            + seq![';', ' '] + spec_render(c) + seq!['>']) + render_fields(v),
        spec_parse_line(spec_render(v)) matches Ok(w) && w.generics == seq![a, b, c],
{
    let gs = v.generics;
    assert(gs.len() == 3);
    assert(gs.drop_last() =~= seq![a, b]);
    assert(seq![a, b].drop_last() =~= seq![a]);
    assert(gs.last() == c);
    assert(seq![a, b].last() == b);
    assert(seq![a][0] == a);
    assert(render_list(gs) == render_list(seq![a, b]) + seq![';', ' '] + spec_render(c));
    assert(render_list(seq![a, b]) == render_list(seq![a]) + seq![';', ' '] + spec_render(b));
    assert(render_list(seq![a]) == spec_render(a));
    assert(render_generics(gs) =~= seq!['<'] + spec_render(a) + seq![';', ' '] + spec_render(b)
        + seq![';', ' '] + spec_render(c) + seq!['>']);
    lemma_round_trip(v);
}

} // verus!

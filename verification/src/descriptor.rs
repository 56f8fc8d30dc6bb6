//! The type descriptor tree: its data model, well-formedness, canonical
//! rendering, and the serializer.

use vstd::prelude::*;

use crate::text::{has_sub, no_delims, trimmed};
use crate::version::{render_version, wf_version, Version, VersionView};

verus! {

/// Basic information about a type: its name, where it is defined, the
/// versions involved, and the descriptors of its generic parameters.
#[derive(Debug)]
pub struct TypeNameData {
    pub(crate) name: String,
    pub(crate) crate_name: Option<String>,
    pub(crate) crate_module: Option<String>,
    pub(crate) crate_version: Option<Version>,
    pub(crate) rustc_version: Option<Version>,
    pub(crate) generics: Vec<TypeNameData>,
}

/// Spec-level model of a descriptor tree node.
#[verifier::ext_equal]
pub struct DescView {
    pub name: Seq<char>,
    pub crate_name: Option<Seq<char>>,
    pub crate_module: Option<Seq<char>>,
    pub crate_version: Option<VersionView>,
    pub rustc_version: Option<VersionView>,
    pub generics: Seq<DescView>,
}

/// The model of an optional string.
pub open spec fn opt_text_view(o: Option<String>) -> Option<Seq<char>> {
    match o {
        Some(s) => Some(s@),
        None => None,
    }
}

/// The model of an optional version.
pub open spec fn opt_version_view(o: Option<Version>) -> Option<VersionView> {
    match o {
        Some(v) => Some(v@),
        None => None,
    }
}

/// The model of a descriptor.
pub open(crate) spec fn desc_view(d: TypeNameData) -> DescView
    decreases d,
{
    DescView {
        name: d.name@,
        crate_name: opt_text_view(d.crate_name),
        crate_module: opt_text_view(d.crate_module),
        crate_version: opt_version_view(d.crate_version),
        rustc_version: opt_version_view(d.rustc_version),
        generics: descs_view(d.generics@),
    }
}

/// The models of a sequence of descriptors.
pub open(crate) spec fn descs_view(ds: Seq<TypeNameData>) -> Seq<DescView>
    decreases ds,
{
    if ds.len() == 0 {
        Seq::empty()
    } else {
        descs_view(ds.drop_last()).push(desc_view(ds.last()))
    }
}

impl View for TypeNameData {
    type V = DescView;

    open spec fn view(&self) -> DescView {
        desc_view(*self)
    }
}

/// `descs_view` maps each element to its model.
pub proof fn lemma_descs_view(ds: Seq<TypeNameData>)
    ensures
        descs_view(ds).len() == ds.len(),
        forall|i: int| 0 <= i < ds.len() ==> #[trigger] descs_view(ds)[i] == desc_view(ds[i]),
    decreases ds,
{
    if ds.len() > 0 {
        lemma_descs_view(ds.drop_last());
        assert forall|i: int| 0 <= i < ds.len() implies #[trigger] descs_view(ds)[i] == desc_view(
            ds[i],
        ) by {
            if i < ds.len() - 1 {
                assert(descs_view(ds)[i] == descs_view(ds.drop_last())[i]);
                assert(ds.drop_last()[i] == ds[i]);
            }
        }
    }
}

// ---------------------------------------------------------------------------
// Field markers
// ---------------------------------------------------------------------------

/// The `Crate=` marker.
pub open spec fn crate_marker() -> Seq<char> {
    seq!['C', 'r', 'a', 't', 'e', '=']
}

/// The `Module=` marker.
pub open spec fn module_marker() -> Seq<char> {
    seq!['M', 'o', 'd', 'u', 'l', 'e', '=']
}

/// The `Version=` marker.
pub open spec fn version_marker() -> Seq<char> {
    seq!['V', 'e', 'r', 's', 'i', 'o', 'n', '=']
}

/// The `Rustc=` marker.
pub open spec fn rustc_marker() -> Seq<char> {
    seq!['R', 'u', 's', 't', 'c', '=']
}

// ---------------------------------------------------------------------------
// Well-formedness
// ---------------------------------------------------------------------------

/// A name or field value that survives the round trip: free of structural
/// delimiters and stable under trimming.
pub open spec fn field_value_ok(s: Seq<char>) -> bool {
    no_delims(s) && trimmed(s) == s
}

/// Node-local well-formedness: the name is non-empty and every present field
/// value keeps its textual trace intact.  A module value must not contain
/// the `Crate=` marker, which the parser searches for first.
pub open spec fn wf_fields(v: DescView) -> bool {
    &&& v.name.len() > 0
    &&& field_value_ok(v.name)
    &&& match v.crate_name {
        Some(s) => field_value_ok(s),
        None => true,
    }
    &&& match v.crate_module {
        Some(s) => field_value_ok(s) && !has_sub(s, crate_marker()),
        None => true,
    }
    &&& match v.crate_version {
        Some(w) => wf_version(w),
        None => true,
    }
    &&& match v.rustc_version {
        Some(w) => wf_version(w),
        None => true,
    }
}

/// A node carries its full origin: crate name, crate version and compiler
/// version are all present.  The parser leaves a nested descriptor only
/// after seeing all three, so only such children can be parsed back.
pub open spec fn full_origin(v: DescView) -> bool {
    v.crate_name is Some && v.crate_version is Some && v.rustc_version is Some
}

/// Every node of the subtree is well-formed and carries its full origin.
pub open spec fn wf_subtree(v: DescView) -> bool
    decreases v,
{
    &&& wf_fields(v)
    &&& full_origin(v)
    &&& forall|i: int| 0 <= i < v.generics.len() ==> wf_subtree(#[trigger] v.generics[i])
}

/// A tree the serializer and parser are mutual inverses on: every node is
/// well-formed, and every nested descriptor carries its full origin.  The
/// root itself may leave any field absent.
pub open spec fn round_trippable(v: DescView) -> bool {
    &&& wf_fields(v)
    &&& forall|i: int| 0 <= i < v.generics.len() ==> wf_subtree(#[trigger] v.generics[i])
}

// ---------------------------------------------------------------------------
// Canonical rendering
// ---------------------------------------------------------------------------

/// The `", "` separator written before each field.
pub open spec fn comma_sep() -> Seq<char> {
    seq![',', ' ']
}

/// An optional text field renders as `", "`, its marker and its value, or
/// not at all.
pub open spec fn render_opt_text(label: Seq<char>, f: Option<Seq<char>>) -> Seq<char> {
    match f {
        Some(s) => comma_sep() + label + s,
        None => Seq::empty(),
    }
}

/// An optional version field renders as `", "`, its marker and the canonical
/// version form, or not at all.
pub open spec fn render_opt_version(label: Seq<char>, f: Option<VersionView>) -> Seq<char> {
    match f {
        Some(v) => comma_sep() + label + render_version(v),
        None => Seq::empty(),
    }
}

/// The field suffix of a node: present fields in the fixed order `Crate=`,
/// `Module=`, `Version=`, `Rustc=`; absent fields leave no trace.
pub open spec fn render_fields(v: DescView) -> Seq<char> {
    render_opt_text(crate_marker(), v.crate_name) + render_opt_text(module_marker(), v.crate_module)
        + render_opt_version(version_marker(), v.crate_version) + render_opt_version(
        rustc_marker(),
        v.rustc_version,
    )
}

/// The canonical one-line form of a descriptor: its name, then its generics
/// in `<...>` when there are any, then its fields.
pub open spec fn spec_render(v: DescView) -> Seq<char>
    decreases v, 0int,
{
    v.name + render_generics(v.generics) + render_fields(v)
}

/// The generic block: nothing at all when there are no generics.
pub open spec fn render_generics(gs: Seq<DescView>) -> Seq<char>
    decreases gs, 2int,
{
    if gs.len() == 0 {
        Seq::empty()
    } else {
        seq!['<'] + render_list(gs) + seq!['>']
    }
}

/// The members of a generic block, joined by `"; "`, in order.
pub open spec fn render_list(gs: Seq<DescView>) -> Seq<char>
    decreases gs, 1int,
{
    if gs.len() == 0 {
        Seq::empty()
    } else if gs.len() == 1 {
        spec_render(gs[0])
    } else {
        render_list(gs.drop_last()) + seq![';', ' '] + spec_render(gs.last())
    }
}

impl TypeNameData {
    /// Get name of type.
    pub fn name(&self) -> (r: &str)
        ensures
            r@ == self@.name,
    {
        self.name.as_str()
    }

    /// Get name of crate, in which the type is contained.
    pub fn crate_name(&self) -> (r: &Option<String>)
        ensures
            opt_text_view(*r) == self@.crate_name,
    {
        &self.crate_name
    }

    /// Get module of crate, in which the type is contained.
    pub fn crate_module(&self) -> (r: &Option<String>)
        ensures
            opt_text_view(*r) == self@.crate_module,
    {
        &self.crate_module
    }

    /// Get version of crate, in which the type is contained - if available.
    pub fn crate_version(&self) -> (r: &Option<Version>)
        ensures
            opt_version_view(*r) == self@.crate_version,
    {
        &self.crate_version
    }

    /// Get version of rustc, which was used to compile the type's crate - if
    /// available.
    pub fn rustc_version(&self) -> (r: &Option<Version>)
        ensures
            opt_version_view(*r) == self@.rustc_version,
    {
        &self.rustc_version
    }

    /// Get list of generic type parameters of the given type.
    pub fn generics(&self) -> (r: &[TypeNameData])
        ensures
            descs_view(r@) == self@.generics,
    {
        self.generics.as_slice()
    }

    /// Constructor.
    pub fn new(
        name: String,
        crate_name: Option<String>,
        crate_module: Option<String>,
        crate_version: Option<Version>,
        rustc_version: Option<Version>,
        generics: Vec<TypeNameData>,
    ) -> (r: TypeNameData)
        ensures
            r@ == (DescView {
                name: name@,
                crate_name: opt_text_view(crate_name),
                crate_module: opt_text_view(crate_module),
                crate_version: opt_version_view(crate_version),
                rustc_version: opt_version_view(rustc_version),
                generics: descs_view(generics@),
            }),
    {
        TypeNameData { name, crate_name, crate_module, crate_version, rustc_version, generics }
    }

    /// Generates the canonical one-line form
    /// `name[<child; child; ...>][, Crate=...][, Module=...][, Version=...][, Rustc=...]`.
    /// Absent fields are skipped entirely; with no generics the `<...>` part
    /// is skipped; generics are recursively rendered and joined with `"; "`.
    pub fn to_one_line_string(&self) -> (r: String)
        ensures
            r@ == spec_render(self@),
        decreases *self, 1int,
    {
        let mut s: String = self.name.clone();
        proof {
            assert(decreases_to!(*self => self.generics));
        }
        append_generics(&self.generics, &mut s);
        self.append_fields(&mut s);
        proof {
            assert(s@ =~= spec_render(self@));
        }
        s
    }

    /// Append the field suffix of this node to `s`.
    #[verifier::rlimit(100)]
    fn append_fields(&self, s: &mut String)
        ensures
            final(s)@ == old(s)@ + render_fields(self@),
    {
        match &self.crate_name {
            Some(cn) => {
                s.append(", Crate=");
                s.append(cn.as_str());
                proof {
                    reveal_strlit(", Crate=");
                    assert(", Crate="@ =~= comma_sep() + crate_marker());
                }
            },
            None => {},
        }
        match &self.crate_module {
            Some(cm) => {
                s.append(", Module=");
                s.append(cm.as_str());
                proof {
                    reveal_strlit(", Module=");
                    assert(", Module="@ =~= comma_sep() + module_marker());
                }
            },
            None => {},
        }
        match &self.crate_version {
            Some(cv) => {
                s.append(", Version=");
                let vs = cv.to_version_string();
                s.append(vs.as_str());
                proof {
                    reveal_strlit(", Version=");
                    assert(", Version="@ =~= comma_sep() + version_marker());
                }
            },
            None => {},
        }
        match &self.rustc_version {
            Some(rv) => {
                s.append(", Rustc=");
                let vs = rv.to_version_string();
                s.append(vs.as_str());
                proof {
                    reveal_strlit(", Rustc=");
                    assert(", Rustc="@ =~= comma_sep() + rustc_marker());
                }
            },
            None => {},
        }
        proof {
            assert(s@ =~= old(s)@ + render_fields(self@));
        }
    }
}

/// Append the generic block of `gs` to `s`: nothing when `gs` is empty, else
/// the members joined by `"; "` inside `<...>`.
fn append_generics(gs: &Vec<TypeNameData>, s: &mut String)
    ensures
        final(s)@ == old(s)@ + render_generics(descs_view(gs@)),
    decreases *gs, 0int,
{
    let ghost gviews = descs_view(gs@);
    proof {
        lemma_descs_view(gs@);
    }
    if gs.len() == 0 {
        proof {
            assert(s@ =~= old(s)@ + render_generics(gviews));
        }
        return ;
    }
    s.append("<");
    proof {
        reveal_strlit("<");
        assert("<"@ =~= seq!['<']);
    }
    let mut i: usize = 0;
    while i < gs.len()
        invariant
            0 < gs@.len(),
            0 <= i <= gs@.len(),
            gviews == descs_view(gs@),
            gviews.len() == gs@.len(),
            forall|j: int| 0 <= j < gs@.len() ==> #[trigger] gviews[j] == desc_view(gs@[j]),
            s@ == old(s)@ + seq!['<'] + render_list(gviews.take(i as int)),
        decreases gs@.len() - i,
    {
        if i > 0 {
            s.append("; ");
            proof {
                reveal_strlit("; ");
                assert("; "@ =~= seq![';', ' ']);
            }
        }
        proof {
            assert(decreases_to!(*gs => gs@));
            assert(decreases_to!(gs@ => gs@[i as int]));
        }
        let child = gs[i].to_one_line_string();
        s.append(child.as_str());
        proof {
            let tk = gviews.take(i + 1);
            assert(tk.drop_last() =~= gviews.take(i as int));
            assert(tk.last() == gviews[i as int]);
            if i == 0 {
                assert(tk.len() == 1);
                assert(tk[0] == gviews[0]);
                assert(render_list(tk) == spec_render(gviews[0]));
                assert(s@ =~= old(s)@ + seq!['<'] + render_list(tk));
            } else {
                assert(tk.len() > 1);
                assert(render_list(tk) == render_list(gviews.take(i as int)) + seq![';', ' ']
                    + spec_render(gviews[i as int]));
                assert(s@ =~= old(s)@ + seq!['<'] + render_list(tk));
            }
        }
        i = i + 1;
    }
    s.append(">");
    proof {
        reveal_strlit(">");
        assert(">"@ =~= seq!['>']);
        assert(gviews.take(gviews.len() as int) =~= gviews);
        assert(s@ =~= old(s)@ + render_generics(gviews));
    }
}

} // verus!

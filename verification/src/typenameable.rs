//! The traits a type implements to hand out its descriptor, and the
//! descriptors of a few core types.

use vstd::prelude::*;

use crate::descriptor::{descs_view, DescView, TypeNameData};
use crate::version::{Version, VersionView};

verus! {

/// This trait allows to extract some basic information about the type.
pub trait TypeNameable {
    /// Fetch name of type and related information.
    fn type_info() -> TypeNameData;
}

/// This trait allows to extract some basic information about the type from
/// one of its values.
pub trait TypeQueryable {
    /// Fetch name of type and related information.
    fn type_info(&self) -> TypeNameData;
}

/// This trait allows to extract the name of a type, from a value or
/// statically.
pub trait TypeName {
    /// Extract name of type from an instance.
    fn type_name_of(&self) -> TypeNameData;

    /// Extract name of type statically. Typically both functions share the
    /// same implementation.
    fn type_name_static() -> TypeNameData where Self: Sized;
}

/// The descriptor every core type shares, up to its name: defined in crate
/// and module `core`, both versions fixed at `1.0.0`, no generics.
pub open spec fn core_desc(ident: Seq<char>) -> DescView {
    DescView {
        name: ident,
        crate_name: Some(seq!['c', 'o', 'r', 'e']),
        crate_module: Some(seq!['c', 'o', 'r', 'e']),
        crate_version: Some(
            VersionView {
                major: 1,
                minor: 0,
                patch: 0,
                pre: Seq::<char>::empty(),
                build: Seq::<char>::empty(),
            },
        ),
        rustc_version: Some(
            VersionView {
                major: 1,
                minor: 0,
                patch: 0,
                pre: Seq::<char>::empty(),
                build: Seq::<char>::empty(),
            },
        ),
        generics: Seq::empty(),
    }
}

/// Build the descriptor of a core type from its identifier.
fn core_type_info(ident: &str) -> (r: TypeNameData)
    ensures
        r@ == core_desc(ident@),
{
    proof {
        reveal_strlit("core");
    }
    let r = TypeNameData::new(
        ident.to_owned(),
        Some("core".to_owned()),
        Some("core".to_owned()),
        Some(Version::new(1, 0, 0)),
        Some(Version::new(1, 0, 0)),
        Vec::new(),
    );
    proof {
        assert("core"@ =~= seq!['c', 'o', 'r', 'e']);
        assert(descs_view(Seq::<TypeNameData>::empty()) =~= Seq::<DescView>::empty());
        assert(r@ =~= core_desc(ident@));
    }
    r
}

impl TypeNameable for u32 {
    fn type_info() -> TypeNameData {
        proof {
            reveal_strlit("u32");
        }
        core_type_info("u32")
    }
}

impl TypeNameable for bool {
    fn type_info() -> TypeNameData {
        proof {
            reveal_strlit("bool");
        }
        core_type_info("bool")
    }
}

impl<'a, T: TypeNameable> TypeNameable for &'a T {
    fn type_info() -> TypeNameData {
        T::type_info()
    }
}

impl TypeName for u32 {
    fn type_name_of(&self) -> TypeNameData {
        proof {
            reveal_strlit("u32");
        }
        core_type_info("u32")
    }

    fn type_name_static() -> TypeNameData {
        proof {
            reveal_strlit("u32");
        }
        core_type_info("u32")
    }
}

impl TypeName for bool {
    fn type_name_of(&self) -> TypeNameData {
        proof {
            reveal_strlit("bool");
        }
        core_type_info("bool")
    }

    fn type_name_static() -> TypeNameData {
        proof {
            reveal_strlit("bool");
        }
        core_type_info("bool")
    }
}

} // verus!

//! The types that the type checker infers and the bindings it keeps.
//!
//! A type is identified by its name and the path of the scope that declares
//! it, not by its shape.

use vstd::prelude::*;
use std::collections::HashMap;

verus! {

/// The bound variables and their types.
pub struct BindingJar {
    pub bindings: HashMap<String, Type>,
}

/// The names of the scopes that lead to a declaration, outermost first.
pub struct Path {
    pub parts: Vec<String>,
}

/// The texts of a path's parts.
pub open spec fn parts_view(parts: Seq<String>) -> Seq<Seq<char>> {
    parts.map_values(|p: String| p@)
}

impl PartialEq for Path {
    fn eq(&self, other: &Path) -> (r: bool) {
        if self.parts.len() != other.parts.len() {
            assert(parts_view(self.parts@).len() != parts_view(other.parts@).len());
            return false;
        }
        let mut i: usize = 0;
        while i < self.parts.len()
            invariant
                self.parts.len() == other.parts.len(),
                i <= self.parts.len(),
                forall|j: int| 0 <= j < i ==> self.parts@[j]@ == other.parts@[j]@,
            decreases self.parts.len() - i,
        {
            if self.parts[i] != other.parts[i] {
                assert(parts_view(self.parts@)[i as int] != parts_view(other.parts@)[i as int]);
                return false;
            }
            i = i + 1;
        }
        assert(parts_view(self.parts@) =~= parts_view(other.parts@));
        true
    }
}

impl vstd::std_specs::cmp::PartialEqSpecImpl for Path {
    open spec fn obeys_eq_spec() -> bool {
        true
    }

    open spec fn eq_spec(&self, other: &Path) -> bool {
        parts_view(self.parts@) == parts_view(other.parts@)
    }
}

/// A type: types are inferred, and entire programs are statically typed.
pub struct Type {
    /// A unique identifier for each type.
    pub id: i32,
    /// The name of the type.
    pub name: String,
    /// The scope that declares the type.
    pub location: Path,
}

impl PartialEq for Type {
    /// Two types are the same when they have the same name and are declared
    /// in the same scope.
    fn eq(&self, other: &Type) -> (r: bool) {
        self.name == other.name && self.location == other.location
    }
}

impl vstd::std_specs::cmp::PartialEqSpecImpl for Type {
    open spec fn obeys_eq_spec() -> bool {
        true
    }

    open spec fn eq_spec(&self, other: &Type) -> bool {
        self.name@ == other.name@ && parts_view(self.location.parts@) == parts_view(
            other.location.parts@,
        )
    }
}

} // verus!

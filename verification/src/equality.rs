//! `==` on types: structural, but for variables, which are equal when their
//! ids are.
use vstd::prelude::*;
use vstd::std_specs::cmp::PartialEqSpecImpl;
use crate::types::{
    same, same_type, same_types, shapes, type_models, AliasType, LamType, Lit, MemberType, TProp,
    Type, VarType,
};

verus! {

impl PartialEq for Type {
    fn eq(&self, other: &Type) -> (r: bool) {
        same_type(self, other)
    }
}

impl PartialEqSpecImpl for Type {
    open spec fn obeys_eq_spec() -> bool {
        true
    }

    open spec fn eq_spec(&self, other: &Type) -> bool {
        same(self@, other@)
    }
}

impl Eq for Type {

}

impl PartialEq for TProp {
    fn eq(&self, other: &TProp) -> (r: bool) {
        self.name == other.name && self.optional == other.optional && same_type(
            &self.ty,
            &other.ty,
        )
    }
}

impl PartialEqSpecImpl for TProp {
    open spec fn obeys_eq_spec() -> bool {
        true
    }

    open spec fn eq_spec(&self, other: &TProp) -> bool {
        self.name@ == other.name@ && self.optional == other.optional && same(self.ty@, other.ty@)
    }
}

impl Eq for TProp {

}

impl PartialEq for Lit {
    fn eq(&self, other: &Lit) -> (r: bool) {
        self.same_as(other)
    }
}

impl PartialEqSpecImpl for Lit {
    open spec fn obeys_eq_spec() -> bool {
        true
    }

    open spec fn eq_spec(&self, other: &Lit) -> bool {
        self@ == other@
    }
}

impl Eq for Lit {

}

impl PartialEq for VarType {
    fn eq(&self, other: &VarType) -> (r: bool) {
        self.id == other.id
    }
}

impl PartialEqSpecImpl for VarType {
    open spec fn obeys_eq_spec() -> bool {
        true
    }

    open spec fn eq_spec(&self, other: &VarType) -> bool {
        self.id == other.id
    }
}

impl Eq for VarType {

}

impl PartialEq for LamType {
    fn eq(&self, other: &LamType) -> (r: bool) {
        same_types(&self.params, &other.params) && same_type(&self.ret, &other.ret)
    }
}

impl PartialEqSpecImpl for LamType {
    open spec fn obeys_eq_spec() -> bool {
        true
    }

    open spec fn eq_spec(&self, other: &LamType) -> bool {
        shapes(type_models(self.params)) == shapes(type_models(other.params)) && same(
            self.ret@,
            other.ret@,
        )
    }
}

impl Eq for LamType {

}

impl PartialEq for MemberType {
    fn eq(&self, other: &MemberType) -> (r: bool) {
        same_type(&self.obj, &other.obj) && self.prop == other.prop
    }
}

impl PartialEqSpecImpl for MemberType {
    open spec fn obeys_eq_spec() -> bool {
        true
    }

    open spec fn eq_spec(&self, other: &MemberType) -> bool {
        same(self.obj@, other.obj@) && self.prop@ == other.prop@
    }
}

impl Eq for MemberType {

}

impl PartialEq for AliasType {
    fn eq(&self, other: &AliasType) -> (r: bool) {
        if self.name != other.name {
            false
        } else {
            match (&self.type_params, &other.type_params) {
                (Some(xs), Some(ys)) => same_types(xs, ys),
                (None, None) => true,
                _ => false,
            }
        }
    }
}

impl PartialEqSpecImpl for AliasType {
    open spec fn obeys_eq_spec() -> bool {
        true
    }

    open spec fn eq_spec(&self, other: &AliasType) -> bool {
        self.name@ == other.name@ && match (self.type_params, other.type_params) {
            (Some(xs), Some(ys)) => shapes(type_models(xs)) == shapes(type_models(ys)),
            (None, None) => true,
            _ => false,
        }
    }
}

impl Eq for AliasType {

}

} // verus!

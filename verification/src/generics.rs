//! Generic bound injector: prepares a declaration's generic-parameter list
//! for reuse inside a generated implementation block.
//!
//! Every parameter not named by the configuration's exclusion set gains the
//! fixed schema-describable capability bound plus whatever extra bounds the
//! caller supplies; every parameter loses its default type, because defaults
//! are invalid once the list stands in an implementation context.

use vstd::prelude::*;

verus! {

use crate::config::{Context, ContextV};
use crate::descriptor::{GenericParam, GenericParamV, TypeRef, copy_type_ref, copy_type_refs};

/// The path of the fixed schema-describable capability bound.
pub open spec fn schema_bound_path() -> Seq<char> {
    "::microcosm::schemars::JsonSchema"@
}

/// The fixed schema-describable capability bound, as a type reference.
pub fn schema_bound() -> (r: TypeRef)
    ensures
        r.deep_view() == schema_bound_path(),
{
    TypeRef { path: String::from_str("::microcosm::schemars::JsonSchema") }
}

/// What bound injection does to a single generic parameter.
pub open spec fn inject_param(p: GenericParamV, cv: ContextV, extra: Seq<Seq<char>>)
    -> GenericParamV {
    if cv.no_bounds_for.contains(p.name) {
        GenericParamV { name: p.name, bounds: p.bounds, default: None }
    } else {
        GenericParamV {
            name: p.name,
            bounds: p.bounds + seq![schema_bound_path()] + extra,
            default: None,
        }
    }
}

/// What bound injection does to a whole parameter list.
pub open spec fn inject_spec(gs: Seq<GenericParamV>, cv: ContextV, extra: Seq<Seq<char>>) -> Seq<
    GenericParamV,
> {
    Seq::new(gs.len(), |i: int| inject_param(gs[i], cv, extra))
}

/// Takes the generics of the type definition and produces the generics of
/// the generated `impl` block: defaults stripped, and for every parameter
/// outside the exclusion set, the schema capability bound plus the supplied
/// extra bounds appended. The input is not changed.
pub fn impl_generics(ctx: &Context, generics: &Vec<GenericParam>, extra_bounds: &Vec<TypeRef>) -> (r:
    Vec<GenericParam>)
    ensures
        r.deep_view() == inject_spec(
            generics.deep_view(),
            ctx.deep_view(),
            extra_bounds.deep_view(),
        ),
{
    let mut r: Vec<GenericParam> = Vec::new();
    let n = generics.len();
    let mut i: usize = 0;
    while i < n
        invariant
            0 <= i <= n,
            n == generics@.len(),
            r@.len() == i,
            forall|j: int| 0 <= j < i ==> r.deep_view()[j] == inject_param(
                #[trigger] generics.deep_view()[j],
                ctx.deep_view(),
                extra_bounds.deep_view(),
            ),
        decreases n - i,
    {
        let ghost prev = r;
        let p = &generics[i];
        let mut bounds = copy_type_refs(&p.bounds);
        if !ctx.excludes(p.name.as_str()) {
            bounds.push(schema_bound());
            let mut extra = copy_type_refs(extra_bounds);
            bounds.append(&mut extra);
            proof {
                assert(bounds.deep_view() =~= p.bounds.deep_view() + seq![schema_bound_path()]
                    + extra_bounds.deep_view());
            }
        }
        let injected = GenericParam { name: p.name.clone(), bounds, default: None };
        proof {
            assert(injected.deep_view() == inject_param(
                generics.deep_view()[i as int],
                ctx.deep_view(),
                extra_bounds.deep_view(),
            ));
        }
        r.push(injected);
        i += 1;
        proof {
            assert forall|j: int| 0 <= j < i implies r.deep_view()[j] == inject_param(
                #[trigger] generics.deep_view()[j],
                ctx.deep_view(),
                extra_bounds.deep_view(),
            ) by {
                if j < i - 1 {
                    assert(r@[j] == prev@[j]);
                    assert(prev.deep_view()[j] == inject_param(
                        generics.deep_view()[j],
                        ctx.deep_view(),
                        extra_bounds.deep_view(),
                    ));
                }
            }
        }
    }
    proof {
        assert(r.deep_view() =~= inject_spec(
            generics.deep_view(),
            ctx.deep_view(),
            extra_bounds.deep_view(),
        ));
    }
    r
}

} // verus!

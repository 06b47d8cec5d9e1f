//! Attribute reader: extracts the generation configuration from a type's
//! annotation groups.
//!
//! One group path is recognized, `query_responses`. Inside it exactly two
//! parameters are understood: the flag `nested`, which switches the registry
//! deriver to delegating mode, and `no_bounds_for(..)`, which lists generic
//! parameters to exempt from bound injection. Any other parameter name is an
//! `UnrecognizedParameter` diagnostic, and the first offender wins. The
//! group may be missing entirely, which yields the default configuration.

use vstd::prelude::*;

verus! {

use crate::descriptor::{AnnotationGroupV, AnnotationParam, AnnotationParamV, Diagnostic,
    DiagnosticV, TypeDescriptor};
use crate::strutil::str_eq;

/// The mathematical form of a generation configuration.
pub ghost struct ContextV {
    pub is_nested: bool,
    pub no_bounds_for: Seq<Seq<char>>,
}

/// The configuration derived once per type from its annotations and
/// read-only afterward.
#[derive(Debug, Clone, PartialEq, Eq)]
pub struct Context {
    /// When set, the registry deriver collects the registries of the nested
    /// query enums instead of expecting `returns` annotations.
    pub is_nested: bool,
    /// Generic parameters exempt from capability-bound injection.
    pub no_bounds_for: Vec<String>,
}

impl DeepView for Context {
    type V = ContextV;

    open spec fn deep_view(&self) -> ContextV {
        ContextV { is_nested: self.is_nested, no_bounds_for: self.no_bounds_for.deep_view() }
    }
}

impl Context {
    /// Whether a generic parameter of this name is exempt from bound
    /// injection.
    pub open spec fn spec_excludes(self, name: Seq<char>) -> bool {
        self.deep_view().no_bounds_for.contains(name)
    }

    /// Decides whether a generic parameter of this name is exempt from
    /// bound injection.
    pub fn excludes(&self, name: &str) -> (r: bool)
        ensures
            r == self.spec_excludes(name@),
    {
        let n = self.no_bounds_for.len();
        let mut i: usize = 0;
        while i < n
            invariant
                0 <= i <= n,
                n == self.no_bounds_for@.len(),
                forall|j: int| 0 <= j < i ==> self.no_bounds_for.deep_view()[j] != name@,
            decreases n - i,
        {
            if str_eq(self.no_bounds_for[i].as_str(), name) {
                proof {
                    assert(self.no_bounds_for.deep_view()[i as int] == name@);
                }
                return true;
            }
            i += 1;
        }
        proof {
            assert(forall|j: int| 0 <= j < self.no_bounds_for.deep_view().len()
                ==> #[trigger] self.no_bounds_for.deep_view()[j] != name@);
        }
        false
    }
}

/// Folds the parameters of one recognized group into the configuration,
/// stopping at the first unrecognized parameter name.
pub open spec fn scan_params(ps: Seq<AnnotationParamV>, acc: ContextV) -> Result<
    ContextV,
    Seq<char>,
>
    decreases ps.len(),
{
    if ps.len() == 0 {
        Ok(acc)
    } else {
        match ps[0] {
            AnnotationParamV::Flag { name } => {
                if name == "nested"@ {
                    scan_params(
                        ps.drop_first(),
                        ContextV { is_nested: true, no_bounds_for: acc.no_bounds_for },
                    )
                } else {
                    Err(name)
                }
            },
            AnnotationParamV::IdentList { name, items } => {
                if name == "no_bounds_for"@ {
                    scan_params(
                        ps.drop_first(),
                        ContextV {
                            is_nested: acc.is_nested,
                            no_bounds_for: acc.no_bounds_for + items,
                        },
                    )
                } else {
                    Err(name)
                }
            },
        }
    }
}

/// Folds every recognized group of an annotation list into the
/// configuration; groups under other paths are passed over.
pub open spec fn scan_groups(gs: Seq<AnnotationGroupV>, acc: ContextV) -> Result<
    ContextV,
    Seq<char>,
>
    decreases gs.len(),
{
    if gs.len() == 0 {
        Ok(acc)
    } else if gs[0].path == "query_responses"@ {
        match scan_params(gs[0].params, acc) {
            Ok(acc2) => scan_groups(gs.drop_first(), acc2),
            Err(n) => Err(n),
        }
    } else {
        scan_groups(gs.drop_first(), acc)
    }
}

/// The default configuration: not nested, nothing excluded.
pub open spec fn default_context() -> ContextV {
    ContextV { is_nested: false, no_bounds_for: Seq::empty() }
}

/// What reading the configuration from an annotation list yields: the
/// folded configuration, or the name of the first unrecognized parameter.
pub open spec fn read_config_spec(gs: Seq<AnnotationGroupV>) -> Result<ContextV, Seq<char>> {
    scan_groups(gs, default_context())
}

/// Appends every identifier of `items` to `dest`.
fn push_items(items: &Vec<String>, dest: &mut Vec<String>)
    ensures
        final(dest).deep_view() == old(dest).deep_view() + items.deep_view(),
{
    let n = items.len();
    let mut k: usize = 0;
    while k < n
        invariant
            0 <= k <= n,
            n == items@.len(),
            dest@.len() == old(dest)@.len() + k,
            forall|j: int| 0 <= j < old(dest)@.len() ==> dest.deep_view()[j] == #[trigger] old(
                dest,
            ).deep_view()[j],
            forall|j: int| 0 <= j < k ==> dest.deep_view()[old(dest)@.len() + j]
                == #[trigger] items.deep_view()[j],
        decreases n - k,
    {
        let ghost prev = *dest;
        dest.push(items[k].clone());
        k += 1;
        proof {
            assert forall|j: int| 0 <= j < dest@.len() - 1 implies dest.deep_view()[j]
                == prev.deep_view()[j] by {
                assert(dest@[j] == prev@[j]);
            }
            assert(dest.deep_view()[dest@.len() - 1] == items.deep_view()[k - 1]);
        }
    }
    proof {
        assert(dest.deep_view() =~= old(dest).deep_view() + items.deep_view());
    }
}

/// Reads the parameters of one recognized annotation group into the
/// configuration, or reports the first unrecognized one.
fn read_group_params(params: &Vec<AnnotationParam>, ctx: &mut Context) -> (r: Result<
    (),
    Diagnostic,
>)
    ensures
        match r {
            Ok(_) => scan_params(params.deep_view(), old(ctx).deep_view()) == Ok::<
                ContextV,
                Seq<char>,
            >(final(ctx).deep_view()),
            Err(d) => scan_params(params.deep_view(), old(ctx).deep_view()) matches Err(n)
                && d.deep_view() == (DiagnosticV::UnrecognizedParameter { name: n }),
        },
{
    let ghost ps = params.deep_view();
    proof {
        assert(ps.skip(0) =~= ps);
    }
    let n = params.len();
    let mut pi: usize = 0;
    while pi < n
        invariant
            0 <= pi <= n,
            n == params@.len(),
            ps == params.deep_view(),
            scan_params(ps, old(ctx).deep_view()) == scan_params(
                ps.skip(pi as int),
                ctx.deep_view(),
            ),
        decreases n - pi,
    {
        proof {
            assert(ps.skip(pi as int)[0] == ps[pi as int]);
            assert(ps.skip(pi as int).drop_first() =~= ps.skip(pi as int + 1));
        }
        match &params[pi] {
            AnnotationParam::Flag { name } => {
                if str_eq(name.as_str(), "nested") {
                    ctx.is_nested = true;
                } else {
                    return Err(Diagnostic::UnrecognizedParameter { name: name.clone() });
                }
            },
            AnnotationParam::IdentList { name, items } => {
                if str_eq(name.as_str(), "no_bounds_for") {
                    let ghost before = ctx.deep_view();
                    push_items(items, &mut ctx.no_bounds_for);
                    proof {
                        assert(ctx.deep_view() == (ContextV {
                            is_nested: before.is_nested,
                            no_bounds_for: before.no_bounds_for + items.deep_view(),
                        }));
                    }
                } else {
                    return Err(Diagnostic::UnrecognizedParameter { name: name.clone() });
                }
            },
        }
        pi += 1;
    }
    proof {
        assert(ps.skip(n as int) =~= Seq::<AnnotationParamV>::empty());
    }
    Ok(())
}

/// Scans the declaration's annotation groups for the recognized group and
/// reads the two understood parameters out of it. Absent the group, the
/// default configuration comes back; an unknown parameter name inside the
/// group aborts the whole read with its diagnostic.
pub fn get_context(input: &TypeDescriptor) -> (r: Result<Context, Diagnostic>)
    ensures
        match r {
            Ok(ctx) => read_config_spec(input.annotations.deep_view()) == Ok::<ContextV, Seq<char>>(
                ctx.deep_view(),
            ),
            Err(d) => read_config_spec(input.annotations.deep_view()) matches Err(n)
                && d.deep_view() == (DiagnosticV::UnrecognizedParameter { name: n }),
        },
{
    let ghost gs = input.annotations.deep_view();
    let mut ctx = Context { is_nested: false, no_bounds_for: Vec::new() };
    proof {
        assert(gs.skip(0) =~= gs);
        assert(ctx.deep_view().no_bounds_for =~= Seq::<Seq<char>>::empty());
        assert(ctx.deep_view() == default_context());
    }
    let ngroups = input.annotations.len();
    let mut gi: usize = 0;
    while gi < ngroups
        invariant
            0 <= gi <= ngroups,
            ngroups == input.annotations@.len(),
            gs == input.annotations.deep_view(),
            read_config_spec(gs) == scan_groups(gs.skip(gi as int), ctx.deep_view()),
        decreases ngroups - gi,
    {
        proof {
            assert(gs.skip(gi as int)[0] == gs[gi as int]);
            assert(gs.skip(gi as int).drop_first() =~= gs.skip(gi as int + 1));
        }
        let group = &input.annotations[gi];
        if str_eq(group.path.as_str(), "query_responses") {
            match read_group_params(&group.params, &mut ctx) {
                Ok(_) => {},
                Err(d) => {
                    return Err(d);
                },
            }
        }
        gi += 1;
    }
    proof {
        assert(gs.skip(ngroups as int) =~= Seq::<AnnotationGroupV>::empty());
    }
    Ok(ctx)
}

} // verus!

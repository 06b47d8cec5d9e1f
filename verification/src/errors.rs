//! Error definition synthesizer: merges a user-declared variant set with the
//! fixed standard catalog of error variants, by name, with user precedence.
//!
//! The merged set is ordered by name and holds exactly one entry per name.
//! When the user supplied at least one variant, a reserved wrapper variant is
//! also seeded, enabling upward conversion from the base library's own error
//! type; an empty user enum stays the plain standard catalog instead. The
//! emission layer renders, beside the extended enum, three fixed conversion
//! implementations that depend only on the enum's name: the narrowing
//! conversion to the base foreign-error type, the promotion from the coin
//! error type, and the generic wrap-from-displayable adapter.

use vstd::prelude::*;

verus! {

use crate::descriptor::{Annotation, AnnotationArg, AnnotationArgV, AnnotationV, TypeDescriptor,
    TypeRef, VariantDescriptor, VariantShape, VariantV, ShapeV, copy_variant};
use crate::strutil::{lex_lt, str_eq, str_lt, lemma_lex_lt_asymmetric, lemma_lex_lt_connected,
    lemma_lex_lt_transitive};

broadcast use vstd::string::group_string_axioms;

/// A unit-shaped catalog variant carrying its display text.
pub open spec fn unit_variant_v(name: Seq<char>, msg: Seq<char>) -> VariantV {
    VariantV {
        name,
        shape: ShapeV::Unit,
        annotations: seq![
            AnnotationV { path: "error"@, args: seq![AnnotationArgV::Text { text: msg }] },
        ],
    }
}

/// A one-field tuple-shaped catalog variant carrying its display text.
pub open spec fn tuple_variant_v(name: Seq<char>, msg: Seq<char>, ty: Seq<char>) -> VariantV {
    VariantV {
        name,
        shape: ShapeV::Tuple { fields: seq![ty] },
        annotations: seq![
            AnnotationV { path: "error"@, args: seq![AnnotationArgV::Text { text: msg }] },
        ],
    }
}

/// The fixed standard catalog: the baseline failure variants every merged
/// error definition falls back to.
pub open spec fn std_variants() -> Seq<VariantV> {
    seq![
        tuple_variant_v("Generic"@, "Internal error: {0}"@, "String"@),
        tuple_variant_v("Std"@, "transparent"@, "::microcosm::std::StdError"@),
        unit_variant_v("Unauthorized"@, "Unauthorized to perform this action"@),
        unit_variant_v("Disabled"@, "Disabled action"@),
        tuple_variant_v("Expired"@, "Expired {0}"@, "&'static str"@),
        unit_variant_v("InsufficientFunds"@, "Insufficient funds provided"@),
        unit_variant_v("FundsNotAccepted"@, "Funds not accepted for this action"@),
        unit_variant_v("Input"@, "Input provided was invalid"@),
        tuple_variant_v("NotFound"@, "{0} not found"@, "&'static str"@),
        unit_variant_v("Parse"@, "Failed to parse value"@),
        unit_variant_v("Unexpected"@, "Unexpected error"@),
    ]
}

/// The reserved name of the library-error wrapper variant.
pub open spec fn wrapper_name() -> Seq<char> {
    "Microcosm"@
}

/// The library-error wrapper variant: a transparent tuple variant wrapping
/// the base library's own error type.
pub open spec fn wrapper_variant_v() -> VariantV {
    tuple_variant_v("Microcosm"@, "transparent"@, "::microcosm::LibraryError"@)
}

/// Whether some variant in the sequence carries this name.
pub open spec fn contains_name(s: Seq<VariantV>, n: Seq<char>) -> bool {
    exists|i: int| 0 <= i < s.len() && s[i].name == n
}

/// Strictly sorted by name: names ascend, so no name appears twice.
pub open spec fn sorted_by_name(s: Seq<VariantV>) -> bool {
    forall|i: int, j: int| 0 <= i < j < s.len() ==> lex_lt(s[i].name, s[j].name)
}

/// Every variant carries a distinct name: the data-model identity of a
/// variant within one enclosing type.
pub open spec fn unique_names(s: Seq<VariantV>) -> bool {
    forall|i: int, j: int| 0 <= i < j < s.len() ==> s[i].name != s[j].name
}

/// What the merged set of a user variant set is: ordered by name; every user
/// variant kept as supplied; the wrapper variant seeded exactly when the
/// user set is not empty and does not claim the reserved name itself; every
/// standard variant whose name the user did not claim filled in; and nothing
/// else.
pub open spec fn is_merged(user: Seq<VariantV>, r: Seq<VariantV>) -> bool {
    &&& sorted_by_name(r)
    &&& forall|i: int| 0 <= i < user.len() ==> r.contains(#[trigger] user[i])
    &&& (user.len() > 0 && !contains_name(user, wrapper_name()) ==> r.contains(wrapper_variant_v()))
    &&& (user.len() == 0 ==> !contains_name(r, wrapper_name()))
    &&& forall|i: int|
        0 <= i < std_variants().len() && !contains_name(user, (#[trigger] std_variants()[i]).name)
            ==> r.contains(std_variants()[i])
    &&& forall|x: VariantV| #[trigger]
        r.contains(x) ==> user.contains(x) || x == wrapper_variant_v() || std_variants().contains(x)
}

fn text_annotation(path: &str, text: &str) -> (a: Annotation)
    ensures
        a.deep_view() == (AnnotationV {
            path: path@,
            args: seq![AnnotationArgV::Text { text: text@ }],
        }),
{
    let mut args: Vec<AnnotationArg> = Vec::new();
    args.push(AnnotationArg::Text { text: String::from_str(text) });
    proof {
        assert(args.deep_view() =~= seq![AnnotationArgV::Text { text: text@ }]);
    }
    Annotation { path: String::from_str(path), args }
}

fn unit_variant(name: &str, msg: &str) -> (v: VariantDescriptor)
    ensures
        v.deep_view() == unit_variant_v(name@, msg@),
{
    let mut annotations: Vec<Annotation> = Vec::new();
    annotations.push(text_annotation("error", msg));
    proof {
        assert(annotations.deep_view() =~= unit_variant_v(name@, msg@).annotations);
    }
    VariantDescriptor {
        name: String::from_str(name),
        shape: VariantShape::Unit,
        annotations,
    }
}

fn tuple_variant(name: &str, msg: &str, ty: &str) -> (v: VariantDescriptor)
    ensures
        v.deep_view() == tuple_variant_v(name@, msg@, ty@),
{
    let mut annotations: Vec<Annotation> = Vec::new();
    annotations.push(text_annotation("error", msg));
    let mut fields: Vec<TypeRef> = Vec::new();
    fields.push(TypeRef { path: String::from_str(ty) });
    proof {
        assert(annotations.deep_view() =~= tuple_variant_v(name@, msg@, ty@).annotations);
        assert(fields.deep_view() =~= seq![ty@]);
    }
    VariantDescriptor {
        name: String::from_str(name),
        shape: VariantShape::Tuple { fields },
        annotations,
    }
}

/// The standard catalog, as descriptors.
pub fn variants() -> (r: Vec<VariantDescriptor>)
    ensures
        r.deep_view() == std_variants(),
{
    let mut r: Vec<VariantDescriptor> = Vec::new();
    r.push(tuple_variant("Generic", "Internal error: {0}", "String"));
    r.push(tuple_variant("Std", "transparent", "::microcosm::std::StdError"));
    r.push(unit_variant("Unauthorized", "Unauthorized to perform this action"));
    r.push(unit_variant("Disabled", "Disabled action"));
    r.push(tuple_variant("Expired", "Expired {0}", "&'static str"));
    r.push(unit_variant("InsufficientFunds", "Insufficient funds provided"));
    r.push(unit_variant("FundsNotAccepted", "Funds not accepted for this action"));
    r.push(unit_variant("Input", "Input provided was invalid"));
    r.push(tuple_variant("NotFound", "{0} not found", "&'static str"));
    r.push(unit_variant("Parse", "Failed to parse value"));
    r.push(unit_variant("Unexpected", "Unexpected error"));
    proof {
        assert(r.deep_view() =~= std_variants());
    }
    r
}

/// The library-error wrapper variant, as a descriptor.
pub fn wrapper_variant() -> (v: VariantDescriptor)
    ensures
        v.deep_view() == wrapper_variant_v(),
{
    tuple_variant("Microcosm", "transparent", "::microcosm::LibraryError")
}

/// The names of the standard catalog and the reserved wrapper name are
/// pairwise distinct.
#[verifier::rlimit(100)]
proof fn lemma_catalog_names_distinct()
    ensures
        forall|i: int, j: int|
            0 <= i < j < std_variants().len() ==> (#[trigger] std_variants()[i]).name
                != (#[trigger] std_variants()[j]).name,
        forall|i: int|
            0 <= i < std_variants().len() ==> (#[trigger] std_variants()[i]).name != wrapper_name(),
{
    reveal_strlit("Generic");
    reveal_strlit("Std");
    reveal_strlit("Unauthorized");
    reveal_strlit("Disabled");
    reveal_strlit("Expired");
    reveal_strlit("InsufficientFunds");
    reveal_strlit("FundsNotAccepted");
    reveal_strlit("Input");
    reveal_strlit("NotFound");
    reveal_strlit("Parse");
    reveal_strlit("Unexpected");
    reveal_strlit("Microcosm");
    assert(std_variants()[0].name == "Generic"@);
    assert(std_variants()[1].name == "Std"@);
    assert(std_variants()[2].name == "Unauthorized"@);
    assert(std_variants()[3].name == "Disabled"@);
    assert(std_variants()[4].name == "Expired"@);
    assert(std_variants()[5].name == "InsufficientFunds"@);
    assert(std_variants()[6].name == "FundsNotAccepted"@);
    assert(std_variants()[7].name == "Input"@);
    assert(std_variants()[8].name == "NotFound"@);
    assert(std_variants()[9].name == "Parse"@);
    assert(std_variants()[10].name == "Unexpected"@);
    assert forall|i: int, j: int|
        0 <= i < j < std_variants().len() implies (#[trigger] std_variants()[i]).name
        != (#[trigger] std_variants()[j]).name by {
        if std_variants()[i].name == std_variants()[j].name {
            assert(std_variants()[i].name.len() == std_variants()[j].name.len());
            assert(std_variants()[i].name[0] == std_variants()[j].name[0]);
            assert(false);
        }
    }
}

/// Decides whether some variant already carries this name.
fn find_name(vs: &Vec<VariantDescriptor>, name: &str) -> (r: bool)
    ensures
        r == contains_name(vs.deep_view(), name@),
{
    let n = vs.len();
    let mut i: usize = 0;
    while i < n
        invariant
            0 <= i <= n,
            n == vs@.len(),
            forall|j: int| 0 <= j < i ==> (#[trigger] vs.deep_view()[j]).name != name@,
        decreases n - i,
    {
        if str_eq(vs[i].name.as_str(), name) {
            proof {
                assert(vs.deep_view()[i as int].name == name@);
            }
            return true;
        }
        i += 1;
    }
    false
}

/// Inserts a variant whose name is not yet present, keeping the set sorted
/// by name.
fn insert_sorted(vs: &mut Vec<VariantDescriptor>, v: VariantDescriptor)
    requires
        sorted_by_name(old(vs).deep_view()),
        !contains_name(old(vs).deep_view(), v.deep_view().name),
    ensures
        sorted_by_name(final(vs).deep_view()),
        final(vs)@.len() == old(vs)@.len() + 1,
        forall|x: VariantV| final(vs).deep_view().contains(x) <==> (old(vs).deep_view().contains(x)
            || x == v.deep_view()),
{
    let ghost oldv = vs.deep_view();
    let ghost vname = v.deep_view().name;
    proof {
        assert(vname == v.name@);
    }
    let n = vs.len();
    let mut pos: usize = 0;
    loop
        invariant
            0 <= pos <= n,
            n == vs@.len(),
            *vs == *old(vs),
            vname == v.name@,
            forall|j: int| 0 <= j < pos ==> lex_lt((#[trigger] vs.deep_view()[j]).name, vname),
        ensures
            0 <= pos <= n,
            *vs == *old(vs),
            forall|j: int| 0 <= j < pos ==> lex_lt((#[trigger] vs.deep_view()[j]).name, vname),
            pos < n ==> !lex_lt(vs.deep_view()[pos as int].name, vname),
        decreases n - pos,
    {
        if pos == n {
            break;
        }
        proof {
            assert(vs.deep_view()[pos as int] == vs@[pos as int].deep_view());
        }
        if !str_lt(vs[pos].name.as_str(), v.name.as_str()) {
            break;
        }
        proof {
            assert(lex_lt(vs.deep_view()[pos as int].name, vname));
        }
        pos += 1;
    }
    proof {
        // everything at or after the insertion point lies strictly above
        assert forall|j: int| pos <= j < n implies lex_lt(vname, (#[trigger] oldv[j]).name) by {
            assert(oldv[pos as int].name != vname);
            lemma_lex_lt_connected(oldv[pos as int].name, vname);
            if j > pos {
                assert(lex_lt(oldv[pos as int].name, oldv[j].name));
                if lex_lt(oldv[j].name, vname) {
                    lemma_lex_lt_transitive(oldv[pos as int].name, oldv[j].name, vname);
                    lemma_lex_lt_asymmetric(oldv[pos as int].name, vname);
                }
                assert(oldv[j].name != vname);
                lemma_lex_lt_connected(oldv[j].name, vname);
            }
        }
    }
    let ghost vv = v.deep_view();
    vs.insert(pos, v);
    proof {
        oldv.insert_ensures(pos as int, vv);
        assert forall|j: int| 0 <= j < vs@.len() implies vs.deep_view()[j] == oldv.insert(
            pos as int,
            vv,
        )[j] by {
            if j < pos {
                assert(vs@[j] == old(vs)@[j]);
            } else if j == pos {
                assert(vs@[j] == v);
            } else {
                assert(vs@[j] == old(vs)@[j - 1]);
                assert(oldv.insert(pos as int, vv)[j] == oldv[j - 1]);
            }
        }
        assert(vs.deep_view() =~= oldv.insert(pos as int, vv));
        let newv = vs.deep_view();
        assert forall|i: int, j: int| 0 <= i < j < newv.len() implies lex_lt(
            newv[i].name,
            newv[j].name,
        ) by {
            if j < pos {
                assert(newv[i] == oldv[i] && newv[j] == oldv[j]);
            } else if i < pos && j == pos {
                assert(newv[i] == oldv[i]);
            } else if i < pos && j > pos {
                assert(newv[i] == oldv[i] && newv[j] == oldv[j - 1]);
                if pos <= j - 1 < n {
                    lemma_lex_lt_transitive(oldv[i].name, vname, oldv[j - 1].name);
                }
            } else if i == pos {
                assert(newv[j] == oldv[j - 1]);
            } else {
                assert(newv[i] == oldv[i - 1] && newv[j] == oldv[j - 1]);
            }
        }
        assert forall|x: VariantV| newv.contains(x) <==> (oldv.contains(x) || x == vv) by {
            if newv.contains(x) {
                let k = choose|k: int| 0 <= k < newv.len() && newv[k] == x;
                if k < pos {
                    assert(oldv[k] == x);
                } else if k > pos {
                    assert(oldv[k - 1] == x);
                }
            }
            if oldv.contains(x) {
                let k = choose|k: int| 0 <= k < oldv.len() && oldv[k] == x;
                if k < pos {
                    assert(newv[k] == x);
                } else {
                    assert(newv[k + 1] == x);
                }
            }
            if x == vv {
                assert(newv[pos as int] == x);
            }
        }
    }
}

/// Builds the merged variant set of a user variant set: user entries first,
/// then the wrapper when the user set is not empty, then every standard
/// variant whose name is still free, the whole kept ordered by name.
pub fn synthesize(user: &Vec<VariantDescriptor>) -> (r: Vec<VariantDescriptor>)
    requires
        unique_names(user.deep_view()),
    ensures
        is_merged(user.deep_view(), r.deep_view()),
{
    let ghost uv = user.deep_view();
    let mut r: Vec<VariantDescriptor> = Vec::new();
    let nu = user.len();
    let mut i: usize = 0;
    while i < nu
        invariant
            0 <= i <= nu,
            nu == user@.len(),
            uv == user.deep_view(),
            unique_names(uv),
            sorted_by_name(r.deep_view()),
            forall|x: VariantV| #[trigger] r.deep_view().contains(x) <==> uv.take(i as int).contains(
                x,
            ),
        decreases nu - i,
    {
        let v = copy_variant(&user[i]);
        proof {
            // the name of user[i] is not among the first i user names
            if contains_name(r.deep_view(), uv[i as int].name) {
                let k = choose|k: int|
                    0 <= k < r.deep_view().len() && r.deep_view()[k].name == uv[i as int].name;
                assert(r.deep_view().contains(r.deep_view()[k]));
                assert(uv.take(i as int).contains(r.deep_view()[k]));
                let m = choose|m: int| 0 <= m < i && uv.take(i as int)[m] == r.deep_view()[k];
                assert(uv[m].name == uv[i as int].name);
            }
        }
        insert_sorted(&mut r, v);
        i += 1;
        proof {
            assert forall|x: VariantV| #[trigger] r.deep_view().contains(x) <==> uv.take(
                i as int,
            ).contains(x) by {
                if uv.take(i as int).contains(x) {
                    let m = choose|m: int| 0 <= m < i && uv.take(i as int)[m] == x;
                    if m < i - 1 {
                        assert(uv.take(i as int - 1)[m] == x);
                        assert(uv.take(i as int - 1).contains(x));
                    } else {
                        assert(x == uv[i as int - 1]);
                    }
                }
                if r.deep_view().contains(x) {
                    if x != uv[i as int - 1] {
                        let m = choose|m: int|
                            0 <= m < i - 1 && #[trigger] uv.take(i as int - 1)[m] == x;
                        assert(uv.take(i as int)[m] == x);
                    } else {
                        assert(uv.take(i as int)[i - 1] == x);
                    }
                }
            }
        }
    }
    proof {
        assert(uv.take(nu as int) =~= uv);
    }
    // seed the wrapper variant, except for an empty user set
    if user.len() > 0 {
        if !find_name(&r, "Microcosm") {
            insert_sorted(&mut r, wrapper_variant());
        } else {
            proof {
                // the reserved name is already claimed, by a user variant
                let k = choose|k: int|
                    0 <= k < r.deep_view().len() && r.deep_view()[k].name == wrapper_name();
                assert(r.deep_view().contains(r.deep_view()[k]));
                assert(uv.contains(r.deep_view()[k]));
                assert(contains_name(uv, wrapper_name())) by {
                    let m = choose|m: int| 0 <= m < uv.len() && uv[m] == r.deep_view()[k];
                    assert(uv[m].name == wrapper_name());
                }
            }
        }
    }
    let ghost seeded = r.deep_view();
    proof {
        lemma_catalog_names_distinct();
        assert forall|x: VariantV| #[trigger] seeded.contains(x) implies uv.contains(x) || x
            == wrapper_variant_v() by {}
        // after seeding, a name stands in the set iff the user claimed it or
        // it is the wrapper's own name with a nonempty user set
        assert forall|n: Seq<char>|
            contains_name(seeded, n) implies contains_name(uv, n) || n == wrapper_name() by {
            let k = choose|k: int| 0 <= k < seeded.len() && seeded[k].name == n;
            assert(seeded.contains(seeded[k]));
            if uv.contains(seeded[k]) {
                let m = choose|m: int| 0 <= m < uv.len() && uv[m] == seeded[k];
                assert(uv[m].name == n);
            }
        }
    }
    // fill in every standard variant whose name is still free
    let catalog = variants();
    let ncat = catalog.len();
    let mut k: usize = 0;
    while k < ncat
        invariant
            0 <= k <= ncat,
            ncat == std_variants().len(),
            catalog.deep_view() == std_variants(),
            sorted_by_name(r.deep_view()),
            forall|x: VariantV| #[trigger] r.deep_view().contains(x) ==> seeded.contains(x)
                || std_variants().contains(x),
            forall|x: VariantV| seeded.contains(x) ==> #[trigger] r.deep_view().contains(x),
            forall|j: int|
                0 <= j < k && !contains_name(seeded, (#[trigger] std_variants()[j]).name)
                    ==> r.deep_view().contains(std_variants()[j]),
            forall|n: Seq<char>| #[trigger]
                contains_name(r.deep_view(), n) ==> contains_name(seeded, n) || (exists|j: int|
                    0 <= j < k && (#[trigger] std_variants()[j]).name == n),
        decreases ncat - k,
    {
        let ghost prev = r.deep_view();
        if !find_name(&r, catalog[k].name.as_str()) {
            let ghost cv = catalog.deep_view()[k as int];
            insert_sorted(&mut r, copy_variant(&catalog[k]));
            proof {
                assert(std_variants().contains(cv)) by {
                    assert(std_variants()[k as int] == cv);
                }
            }
        }
        k += 1;
        proof {
            lemma_catalog_names_distinct();
            assert forall|j: int|
                0 <= j < k && !contains_name(seeded, (#[trigger] std_variants()[j]).name) implies r
                .deep_view().contains(std_variants()[j]) by {
                if j < k - 1 {
                    assert(prev.contains(std_variants()[j]));
                } else {
                    // the variant placed this round, or one already present
                    // under the same name
                    if contains_name(prev, std_variants()[j].name) {
                        // that name came from seeding or an earlier catalog
                        // entry, and earlier entries carry other names
                        assert(contains_name(seeded, std_variants()[j].name));
                    } else {
                        assert(r.deep_view().contains(std_variants()[j]));
                    }
                }
            }
            assert forall|n: Seq<char>| #[trigger]
                contains_name(r.deep_view(), n) implies contains_name(seeded, n) || (exists|j: int|
                0 <= j < k && (#[trigger] std_variants()[j]).name == n) by {
                let m = choose|m: int|
                    0 <= m < r.deep_view().len() && r.deep_view()[m].name == n;
                let x = r.deep_view()[m];
                assert(r.deep_view().contains(x));
                if prev.contains(x) {
                    assert(contains_name(prev, n)) by {
                        let mm = choose|mm: int| 0 <= mm < prev.len() && prev[mm] == x;
                        assert(prev[mm].name == n);
                    }
                } else {
                    assert(x == std_variants()[k - 1]);
                }
            }
        }
    }
    proof {
        // the merged-set characterization, clause by clause
        assert forall|i2: int| 0 <= i2 < uv.len() implies r.deep_view().contains(
            #[trigger] uv[i2],
        ) by {
            assert(seeded.contains(uv[i2])) by {
                assert(uv.contains(uv[i2]));
            }
        }
        lemma_catalog_names_distinct();
        if uv.len() == 0 {
            assert(!contains_name(seeded, wrapper_name())) by {
                if contains_name(seeded, wrapper_name()) {
                    let k2 = choose|k2: int|
                        0 <= k2 < seeded.len() && seeded[k2].name == wrapper_name();
                    assert(seeded.contains(seeded[k2]));
                    assert(uv.take(0).contains(seeded[k2]));
                    assert(false);
                }
            }
            assert(!contains_name(r.deep_view(), wrapper_name()));
        }
        assert forall|i2: int|
            0 <= i2 < std_variants().len() && !contains_name(
                uv,
                (#[trigger] std_variants()[i2]).name,
            ) implies r.deep_view().contains(std_variants()[i2]) by {
            if contains_name(seeded, std_variants()[i2].name) {
                assert(std_variants()[i2].name == wrapper_name());
                assert(false);
            }
        }
    }
    r
}

/// The synthesized error definition: the extended enum under the original
/// name. The three fixed conversion implementations that accompany it at
/// emission time depend only on this name.
#[derive(Debug, Clone, PartialEq, Eq)]
pub struct ErrorExpansion {
    pub ident: String,
    pub variants: Vec<VariantDescriptor>,
}

/// Merges the declaration's variants with the standard catalog and returns
/// the extended definition under the declaration's own name. This pass
/// cannot fail on an enum descriptor; a non-enum declaration is rejected by
/// the front end before it reaches this pass.
pub fn cw_error(input: &TypeDescriptor) -> (r: ErrorExpansion)
    requires
        unique_names(input.variants.deep_view()),
    ensures
        r.ident@ == input.name@,
        is_merged(input.variants.deep_view(), r.variants.deep_view()),
{
    ErrorExpansion { ident: input.name.clone(), variants: synthesize(&input.variants) }
}

} // verus!

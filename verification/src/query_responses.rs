//! Query registry deriver: builds, for an enum of query variants, the
//! implementation descriptor of the query-responses capability.
//!
//! In flat mode every variant must carry exactly one `returns` annotation
//! denoting its response type; the registry maps the normalized variant name
//! to that type, in declaration order. Duplicate normalized names are a
//! caller error and are left to the consuming map's overwrite-by-last
//! behavior; a sorted copy of the key set is emitted alongside for the
//! separate consistency check. In nested mode every variant must be a
//! single-field tuple wrapper around another query enum, and the descriptor
//! lists the delegate types whose registries the combine operation merges at
//! generation time. The generated implementation is always gated to exclude
//! one fixed target platform.

use vstd::prelude::*;

verus! {

use crate::config::{Context, ContextV, get_context, read_config_spec};
use crate::descriptor::{AnnotationArgV, AnnotationV, Diagnostic, DiagnosticV, GenericParam,
    ShapeV, TypeDescriptor, TypeRef, VariantDescriptor, VariantV, AnnotationArg, copy_type_ref};
use crate::generics::{impl_generics, inject_spec};
use crate::ident::{snake_of, to_snake_case};
use crate::strutil::{lex_le, lex_lt, str_eq, str_lt, lemma_lex_lt_connected,
    lemma_lex_lt_transitive};

broadcast use vstd::seq_lib::group_to_multiset_ensures;

/// The mathematical form of one registry entry.
pub ghost struct QueryRegistryEntryV {
    pub key: Seq<char>,
    pub response: Seq<char>,
}

/// One entry of the flat registry: the normalized variant name and the
/// response type it maps to.
#[derive(Debug, Clone, PartialEq, Eq)]
pub struct QueryRegistryEntry {
    pub key: String,
    pub response: TypeRef,
}

impl DeepView for QueryRegistryEntry {
    type V = QueryRegistryEntryV;

    open spec fn deep_view(&self) -> QueryRegistryEntryV {
        QueryRegistryEntryV { key: self.key@, response: self.response.deep_view() }
    }
}

/// The registry half of the generated implementation: a flat mapping, or the
/// delegate types of a nested composition.
#[derive(Debug, Clone, PartialEq, Eq)]
pub enum RegistryBody {
    Flat { entries: Vec<QueryRegistryEntry>, sorted_keys: Vec<String> },
    Nested { subqueries: Vec<TypeRef> },
}

/// The generated implementation descriptor of the query-responses
/// capability: the enum it is for, the injected impl generics, the one
/// target platform the implementation is gated to exclude, and the registry
/// body.
#[derive(Debug, Clone, PartialEq, Eq)]
pub struct QueryResponsesImpl {
    pub target: String,
    pub generics: Vec<GenericParam>,
    pub excluded_target: String,
    pub body: RegistryBody,
}

/// The one platform that every registry implementation's gate excludes.
pub open spec fn excluded_target_spec() -> Seq<char> {
    "wasm32"@
}

/// The path of the capability bound each delegate type must satisfy in
/// nested mode.
pub open spec fn qr_bound_path() -> Seq<char> {
    "::microcosm::schema::QueryResponses"@
}

/// The nested-mode capability bound, as a type reference.
pub fn qr_bound() -> (r: TypeRef)
    ensures
        r.deep_view() == qr_bound_path(),
{
    TypeRef { path: String::from_str("::microcosm::schema::QueryResponses") }
}

/// The first `returns` annotation of a variant, if any.
pub open spec fn find_returns(anns: Seq<AnnotationV>) -> Option<AnnotationV>
    decreases anns.len(),
{
    if anns.len() == 0 {
        None
    } else if anns[0].path == "returns"@ {
        Some(anns[0])
    } else {
        find_returns(anns.drop_first())
    }
}

/// What extracting the query -> response mapping from one variant yields:
/// the normalized name and the annotated response type, or the diagnostic.
pub open spec fn parse_query_spec(v: VariantV) -> Result<QueryRegistryEntryV, DiagnosticV> {
    match find_returns(v.annotations) {
        Option::None => Err(DiagnosticV::MissingResponseType { variant: v.name }),
        Option::Some(a) => {
            if a.args.len() == 1 {
                match a.args[0] {
                    AnnotationArgV::Ty { path } => Ok(
                        QueryRegistryEntryV { key: snake_of(v.name), response: path },
                    ),
                    AnnotationArgV::Text { .. } => Err(
                        DiagnosticV::InvalidResponseType { variant: v.name },
                    ),
                }
            } else {
                Err(DiagnosticV::InvalidResponseType { variant: v.name })
            }
        },
    }
}

/// What extracting the delegate type from one variant yields: the single
/// unnamed field's type, or the shape diagnostic.
pub open spec fn parse_subquery_spec(v: VariantV) -> Result<Seq<char>, DiagnosticV> {
    match v.shape {
        ShapeV::Struct { .. } => Err(DiagnosticV::StructVariantNotSubquery { variant: v.name }),
        ShapeV::Tuple { fields } => {
            if fields.len() == 1 {
                Ok(fields[0])
            } else {
                Err(DiagnosticV::WrongArity { variant: v.name })
            }
        },
        ShapeV::Unit => Err(DiagnosticV::UnitVariantNotSubquery { variant: v.name }),
    }
}

/// Extracting the mapping from every variant, stopping at the first failure.
pub open spec fn parse_queries_spec(vs: Seq<VariantV>) -> Result<
    Seq<QueryRegistryEntryV>,
    DiagnosticV,
>
    decreases vs.len(),
{
    if vs.len() == 0 {
        Ok(Seq::empty())
    } else {
        match parse_query_spec(vs[0]) {
            Err(d) => Err(d),
            Ok(e) => match parse_queries_spec(vs.drop_first()) {
                Err(d) => Err(d),
                Ok(rest) => Ok(seq![e] + rest),
            },
        }
    }
}

/// Extracting the delegate type from every variant, stopping at the first
/// failure.
pub open spec fn parse_subqueries_spec(vs: Seq<VariantV>) -> Result<Seq<Seq<char>>, DiagnosticV>
    decreases vs.len(),
{
    if vs.len() == 0 {
        Ok(Seq::empty())
    } else {
        match parse_subquery_spec(vs[0]) {
            Err(d) => Err(d),
            Ok(t) => match parse_subqueries_spec(vs.drop_first()) {
                Err(d) => Err(d),
                Ok(rest) => Ok(seq![t] + rest),
            },
        }
    }
}

/// The key column of a registry.
pub open spec fn entry_keys(es: Seq<QueryRegistryEntryV>) -> Seq<Seq<char>> {
    es.map_values(|e: QueryRegistryEntryV| e.key)
}

/// Keys ascend, duplicates allowed.
pub open spec fn sorted_keys_le(s: Seq<Seq<char>>) -> bool {
    forall|i: int, j: int| 0 <= i < j < s.len() ==> lex_le(s[i], s[j])
}

proof fn lemma_parse_queries_all_ok(vs: Seq<VariantV>, es: Seq<QueryRegistryEntryV>)
    requires
        es.len() == vs.len(),
        forall|i: int|
            0 <= i < vs.len() ==> #[trigger] parse_query_spec(vs[i]) == Ok::<
                QueryRegistryEntryV,
                DiagnosticV,
            >(es[i]),
    ensures
        parse_queries_spec(vs) == Ok::<Seq<QueryRegistryEntryV>, DiagnosticV>(es),
    decreases vs.len(),
{
    if vs.len() == 0 {
        assert(es =~= Seq::<QueryRegistryEntryV>::empty());
    } else {
        assert forall|i: int| 0 <= i < vs.drop_first().len() implies #[trigger] parse_query_spec(
            vs.drop_first()[i],
        ) == Ok::<QueryRegistryEntryV, DiagnosticV>(es.drop_first()[i]) by {
            assert(vs.drop_first()[i] == vs[i + 1]);
            assert(es.drop_first()[i] == es[i + 1]);
        }
        lemma_parse_queries_all_ok(vs.drop_first(), es.drop_first());
        assert(parse_query_spec(vs[0]) == Ok::<QueryRegistryEntryV, DiagnosticV>(es[0]));
        assert(seq![es[0]] + es.drop_first() =~= es);
    }
}

proof fn lemma_parse_queries_first_err(vs: Seq<VariantV>, k: int, d: DiagnosticV)
    requires
        0 <= k < vs.len(),
        forall|i: int| 0 <= i < k ==> (#[trigger] parse_query_spec(vs[i])) is Ok,
        parse_query_spec(vs[k]) == Err::<QueryRegistryEntryV, DiagnosticV>(d),
    ensures
        parse_queries_spec(vs) == Err::<Seq<QueryRegistryEntryV>, DiagnosticV>(d),
    decreases vs.len(),
{
    if k == 0 {
    } else {
        assert forall|i: int| 0 <= i < k - 1 implies (#[trigger] parse_query_spec(
            vs.drop_first()[i],
        )) is Ok by {
            assert(vs.drop_first()[i] == vs[i + 1]);
        }
        assert(vs.drop_first()[k - 1] == vs[k]);
        lemma_parse_queries_first_err(vs.drop_first(), k - 1, d);
        assert(parse_query_spec(vs[0]) is Ok);
    }
}

proof fn lemma_parse_subqueries_all_ok(vs: Seq<VariantV>, ts: Seq<Seq<char>>)
    requires
        ts.len() == vs.len(),
        forall|i: int|
            0 <= i < vs.len() ==> #[trigger] parse_subquery_spec(vs[i]) == Ok::<
                Seq<char>,
                DiagnosticV,
            >(ts[i]),
    ensures
        parse_subqueries_spec(vs) == Ok::<Seq<Seq<char>>, DiagnosticV>(ts),
    decreases vs.len(),
{
    if vs.len() == 0 {
        assert(ts =~= Seq::<Seq<char>>::empty());
    } else {
        assert forall|i: int| 0 <= i < vs.drop_first().len() implies #[trigger] parse_subquery_spec(
            vs.drop_first()[i],
        ) == Ok::<Seq<char>, DiagnosticV>(ts.drop_first()[i]) by {
            assert(vs.drop_first()[i] == vs[i + 1]);
            assert(ts.drop_first()[i] == ts[i + 1]);
        }
        lemma_parse_subqueries_all_ok(vs.drop_first(), ts.drop_first());
        assert(parse_subquery_spec(vs[0]) == Ok::<Seq<char>, DiagnosticV>(ts[0]));
        assert(seq![ts[0]] + ts.drop_first() =~= ts);
    }
}

proof fn lemma_parse_subqueries_first_err(vs: Seq<VariantV>, k: int, d: DiagnosticV)
    requires
        0 <= k < vs.len(),
        forall|i: int| 0 <= i < k ==> (#[trigger] parse_subquery_spec(vs[i])) is Ok,
        parse_subquery_spec(vs[k]) == Err::<Seq<char>, DiagnosticV>(d),
    ensures
        parse_subqueries_spec(vs) == Err::<Seq<Seq<char>>, DiagnosticV>(d),
    decreases vs.len(),
{
    if k == 0 {
    } else {
        assert forall|i: int| 0 <= i < k - 1 implies (#[trigger] parse_subquery_spec(
            vs.drop_first()[i],
        )) is Ok by {
            assert(vs.drop_first()[i] == vs[i + 1]);
        }
        assert(vs.drop_first()[k - 1] == vs[k]);
        lemma_parse_subqueries_first_err(vs.drop_first(), k - 1, d);
        assert(parse_subquery_spec(vs[0]) is Ok);
    }
}

/// Flat-registry totality: wherever every variant's `returns` annotation
/// parses, the flat derivation succeeds, and its output holds exactly one
/// entry per variant.
pub proof fn lemma_flat_registry_totality(vs: Seq<VariantV>)
    requires
        forall|i: int| 0 <= i < vs.len() ==> (#[trigger] parse_query_spec(vs[i])) is Ok,
    ensures
        parse_queries_spec(vs) matches Ok(es) && es.len() == vs.len(),
    decreases vs.len(),
{
    if vs.len() > 0 {
        assert(parse_query_spec(vs[0]) is Ok);
        assert forall|i: int| 0 <= i < vs.drop_first().len() implies (#[trigger] parse_query_spec(
            vs.drop_first()[i],
        )) is Ok by {
            assert(vs.drop_first()[i] == vs[i + 1]);
        }
        lemma_flat_registry_totality(vs.drop_first());
    }
}

/// Flat-registry failure: a variant without a `returns` annotation, with
/// every variant before it in order, fails the whole derivation with that
/// variant's `MissingResponseType` diagnostic.
pub proof fn lemma_flat_registry_missing(vs: Seq<VariantV>, k: int)
    requires
        0 <= k < vs.len(),
        forall|i: int| 0 <= i < k ==> (#[trigger] parse_query_spec(vs[i])) is Ok,
        find_returns(vs[k].annotations) is None,
    ensures
        parse_queries_spec(vs) == Err::<Seq<QueryRegistryEntryV>, DiagnosticV>(
            DiagnosticV::MissingResponseType { variant: vs[k].name },
        ),
{
    lemma_parse_queries_first_err(
        vs,
        k,
        DiagnosticV::MissingResponseType { variant: vs[k].name },
    );
}

/// Extracts the query -> response mapping out of one enum variant: the
/// variant name, normalized, and the type carried by its single-argument
/// `returns` annotation.
pub fn parse_query(_ctx: &Context, v: &VariantDescriptor) -> (r: Result<
    (String, TypeRef),
    Diagnostic,
>)
    ensures
        match r {
            Ok(p) => parse_query_spec(v.deep_view()) == Ok::<QueryRegistryEntryV, DiagnosticV>(
                QueryRegistryEntryV { key: p.0@, response: p.1.deep_view() },
            ),
            Err(d) => parse_query_spec(v.deep_view()) == Err::<QueryRegistryEntryV, DiagnosticV>(
                d.deep_view(),
            ),
        },
{
    let ghost anns = v.annotations.deep_view();
    proof {
        assert(anns.skip(0) =~= anns);
    }
    let n = v.annotations.len();
    let mut i: usize = 0;
    let mut found: Option<usize> = None;
    loop
        invariant_except_break
            found is None,
        invariant
            0 <= i <= n,
            n == v.annotations@.len(),
            anns == v.annotations.deep_view(),
            find_returns(anns) == find_returns(anns.skip(i as int)),
        ensures
            anns == v.annotations.deep_view(),
            n == v.annotations@.len(),
            match found {
                Option::Some(k) => k < n && find_returns(anns) == Some(anns[k as int]),
                Option::None => find_returns(anns) is None,
            },
        decreases n - i,
    {
        if i == n {
            proof {
                assert(anns.skip(n as int) =~= Seq::<AnnotationV>::empty());
            }
            break;
        }
        proof {
            assert(anns.skip(i as int)[0] == anns[i as int]);
            assert(anns.skip(i as int).drop_first() =~= anns.skip(i as int + 1));
        }
        if str_eq(v.annotations[i].path.as_str(), "returns") {
            found = Some(i);
            break;
        }
        i += 1;
    }
    match found {
        None => Err(Diagnostic::MissingResponseType { variant: v.name.clone() }),
        Some(k) => {
            let a = &v.annotations[k];
            if a.args.len() == 1 {
                match &a.args[0] {
                    AnnotationArg::Ty { ty } => {
                        let key = to_snake_case(v.name.as_str());
                        Ok((key, copy_type_ref(ty)))
                    },
                    AnnotationArg::Text { .. } => Err(
                        Diagnostic::InvalidResponseType { variant: v.name.clone() },
                    ),
                }
            } else {
                Err(Diagnostic::InvalidResponseType { variant: v.name.clone() })
            }
        },
    }
}

/// Extracts the delegate query type out of one enum variant: the type of
/// its single unnamed field.
pub fn parse_subquery(_ctx: &Context, v: &VariantDescriptor) -> (r: Result<TypeRef, Diagnostic>)
    ensures
        match r {
            Ok(t) => parse_subquery_spec(v.deep_view()) == Ok::<Seq<char>, DiagnosticV>(
                t.deep_view(),
            ),
            Err(d) => parse_subquery_spec(v.deep_view()) == Err::<Seq<char>, DiagnosticV>(
                d.deep_view(),
            ),
        },
{
    match &v.shape {
        crate::descriptor::VariantShape::Struct { .. } => Err(
            Diagnostic::StructVariantNotSubquery { variant: v.name.clone() },
        ),
        crate::descriptor::VariantShape::Tuple { fields } => {
            if fields.len() == 1 {
                Ok(copy_type_ref(&fields[0]))
            } else {
                Err(Diagnostic::WrongArity { variant: v.name.clone() })
            }
        },
        crate::descriptor::VariantShape::Unit => Err(
            Diagnostic::UnitVariantNotSubquery { variant: v.name.clone() },
        ),
    }
}

/// Packs one extracted mapping into a registry entry.
pub fn parse_tuple(q: (String, TypeRef)) -> (e: QueryRegistryEntry)
    ensures
        e.deep_view() == (QueryRegistryEntryV { key: q.0@, response: q.1.deep_view() }),
{
    QueryRegistryEntry { key: q.0, response: q.1 }
}

proof fn lemma_to_multiset_insert(s: Seq<Seq<char>>, pos: int, a: Seq<char>)
    requires
        0 <= pos <= s.len(),
    ensures
        s.insert(pos, a).to_multiset() == s.to_multiset().insert(a),
{
    let l = s.subrange(0, pos);
    let rgt = s.subrange(pos, s.len() as int);
    assert(s =~= l + rgt);
    vstd::seq_lib::lemma_multiset_commutative(l, rgt);
    vstd::seq_lib::lemma_multiset_commutative(l.push(a), rgt);
    assert(s.insert(pos, a) == l.push(a) + rgt);
    assert(l.push(a).to_multiset() =~= l.to_multiset().insert(a));
    assert((l.to_multiset().insert(a)).add(rgt.to_multiset()) =~= (l.to_multiset().add(
        rgt.to_multiset(),
    )).insert(a));
}

/// Collects the key column of a registry into an ascending list: the sorted
/// key set used for the separate consistency check.
pub fn sort_keys(entries: &Vec<QueryRegistryEntry>) -> (r: Vec<String>)
    ensures
        sorted_keys_le(r.deep_view()),
        r.deep_view().to_multiset() == entry_keys(entries.deep_view()).to_multiset(),
{
    let ghost keys = entry_keys(entries.deep_view());
    let mut r: Vec<String> = Vec::new();
    proof {
        assert(r.deep_view() =~= Seq::<Seq<char>>::empty());
        assert(keys.take(0) =~= Seq::<Seq<char>>::empty());
        assert(Seq::<Seq<char>>::empty().to_multiset() =~= Seq::<Seq<char>>::empty().to_multiset());
    }
    let n = entries.len();
    let mut i: usize = 0;
    while i < n
        invariant
            0 <= i <= n,
            n == entries@.len(),
            keys == entry_keys(entries.deep_view()),
            sorted_keys_le(r.deep_view()),
            r.deep_view().to_multiset() == keys.take(i as int).to_multiset(),
        decreases n - i,
    {
        let k = entries[i].key.clone();
        let ghost kv = k@;
        let rn = r.len();
        let mut pos: usize = 0;
        loop
            invariant
                0 <= pos <= rn,
                rn == r@.len(),
                kv == k@,
                forall|j: int| 0 <= j < pos ==> lex_lt(#[trigger] r.deep_view()[j], kv),
            ensures
                0 <= pos <= rn,
                rn == r@.len(),
                forall|j: int| 0 <= j < pos ==> lex_lt(#[trigger] r.deep_view()[j], kv),
                pos < rn ==> !lex_lt(r.deep_view()[pos as int], kv),
            decreases rn - pos,
        {
            if pos == rn {
                break;
            }
            proof {
                assert(r.deep_view()[pos as int] == r@[pos as int]@);
            }
            if !str_lt(r[pos].as_str(), k.as_str()) {
                break;
            }
            pos += 1;
        }
        let ghost oldr = r.deep_view();
        let ghost prevv = r@;
        r.insert(pos, k);
        i += 1;
        proof {
            oldr.insert_ensures(pos as int, kv);
            prevv.insert_ensures(pos as int, k);
            assert forall|j: int| 0 <= j < r@.len() implies r.deep_view()[j] == oldr.insert(
                pos as int,
                kv,
            )[j] by {
                if j < pos {
                    assert(r@[j] == prevv[j]);
                } else if j == pos {
                    assert(r@[j] == k);
                } else {
                    assert(r@[j] == prevv[j - 1]);
                    assert(oldr.insert(pos as int, kv)[j] == oldr[j - 1]);
                }
            }
            assert(r.deep_view() =~= oldr.insert(pos as int, kv));
            lemma_to_multiset_insert(oldr, pos as int, kv);
            assert(keys.take(i as int).drop_last() =~= keys.take(i as int - 1));
            assert(keys.take(i as int) =~= keys.take(i as int - 1).push(kv)) by {
                assert(keys[i as int - 1] == entries.deep_view()[i as int - 1].key);
            }
            assert(keys.take(i as int - 1).push(kv).to_multiset() == keys.take(
                i as int - 1,
            ).to_multiset().insert(kv));
            assert(keys.take(i as int).to_multiset() == keys.take(i as int - 1).to_multiset()
                .insert(kv));
            // sortedness after insertion
            let newr = r.deep_view();
            assert forall|x: int, y: int| 0 <= x < y < newr.len() implies lex_le(
                newr[x],
                newr[y],
            ) by {
                if y < pos {
                    assert(newr[x] == oldr[x] && newr[y] == oldr[y]);
                } else if x < pos && y == pos {
                    assert(newr[x] == oldr[x]);
                } else if x < pos && y > pos {
                    assert(newr[x] == oldr[x] && newr[y] == oldr[y - 1]);
                } else if x == pos {
                    assert(newr[x] == kv && newr[y] == oldr[y - 1]);
                    lemma_lex_lt_connected(oldr[y - 1], kv);
                    if pos < y - 1 {
                        assert(lex_le(oldr[pos as int], oldr[y - 1]));
                    }
                    if lex_lt(oldr[y - 1], kv) {
                        if pos == y - 1 {
                            assert(false);
                        } else {
                            if lex_lt(oldr[pos as int], oldr[y - 1]) {
                                lemma_lex_lt_transitive(oldr[pos as int], oldr[y - 1], kv);
                                assert(false);
                            } else {
                                assert(oldr[pos as int] == oldr[y - 1]);
                                assert(false);
                            }
                        }
                    }
                } else {
                    assert(newr[x] == oldr[x - 1] && newr[y] == oldr[y - 1]);
                }
            }
        }
    }
    proof {
        assert(keys.take(n as int) =~= keys);
    }
    r
}

/// Derives the query-responses implementation descriptor for an enum
/// declaration: its configuration is read, each variant is parsed under the
/// selected mode, and the first diagnostic aborts the whole generation.
pub fn query_responses_derive_impl(input: &TypeDescriptor) -> (r: Result<
    QueryResponsesImpl,
    Diagnostic,
>)
    ensures
        match r {
            Ok(im) => {
                &&& read_config_spec(input.annotations.deep_view()) matches Ok(cv)
                &&& im.target@ == input.name@
                &&& im.excluded_target@ == excluded_target_spec()
                &&& match im.body {
                    RegistryBody::Nested { subqueries } => {
                        &&& cv.is_nested
                        &&& im.generics.deep_view() == inject_spec(
                            input.generics.deep_view(),
                            cv,
                            seq![qr_bound_path()],
                        )
                        &&& parse_subqueries_spec(input.variants.deep_view()) == Ok::<
                            Seq<Seq<char>>,
                            DiagnosticV,
                        >(subqueries.deep_view())
                    },
                    RegistryBody::Flat { entries, sorted_keys } => {
                        &&& !cv.is_nested
                        &&& im.generics.deep_view() == inject_spec(
                            input.generics.deep_view(),
                            cv,
                            Seq::empty(),
                        )
                        &&& parse_queries_spec(input.variants.deep_view()) == Ok::<
                            Seq<QueryRegistryEntryV>,
                            DiagnosticV,
                        >(entries.deep_view())
                        &&& sorted_keys_le(sorted_keys.deep_view())
                        &&& sorted_keys.deep_view().to_multiset() == entry_keys(
                            entries.deep_view(),
                        ).to_multiset()
                    },
                }
            },
            Err(d) => {
                ||| (read_config_spec(input.annotations.deep_view()) matches Err(n) && d.deep_view()
                    == (DiagnosticV::UnrecognizedParameter { name: n }))
                ||| (read_config_spec(input.annotations.deep_view()) matches Ok(cv) && cv.is_nested
                    && parse_subqueries_spec(input.variants.deep_view()) == Err::<
                    Seq<Seq<char>>,
                    DiagnosticV,
                >(d.deep_view()))
                ||| (read_config_spec(input.annotations.deep_view()) matches Ok(cv)
                    && !cv.is_nested && parse_queries_spec(input.variants.deep_view()) == Err::<
                    Seq<QueryRegistryEntryV>,
                    DiagnosticV,
                >(d.deep_view()))
            },
        },
{
    let ctx = match get_context(input) {
        Ok(c) => c,
        Err(d) => {
            return Err(d);
        },
    };
    let ghost vars = input.variants.deep_view();
    let n = input.variants.len();
    if ctx.is_nested {
        let mut subqueries: Vec<TypeRef> = Vec::new();
        let mut i: usize = 0;
        while i < n
            invariant
                0 <= i <= n,
                n == input.variants@.len(),
                vars == input.variants.deep_view(),
                read_config_spec(input.annotations.deep_view()) == Ok::<ContextV, Seq<char>>(
                    ctx.deep_view(),
                ),
                ctx.is_nested,
                subqueries@.len() == i,
                forall|j: int| 0 <= j < i ==> parse_subquery_spec(#[trigger] vars[j]) == Ok::<
                    Seq<char>,
                    DiagnosticV,
                >(subqueries.deep_view()[j]),
            decreases n - i,
        {
            let ghost prev = subqueries;
            match parse_subquery(&ctx, &input.variants[i]) {
                Ok(t) => {
                    subqueries.push(t);
                },
                Err(d) => {
                    proof {
                        lemma_parse_subqueries_first_err(vars, i as int, d.deep_view());
                    }
                    return Err(d);
                },
            }
            i += 1;
            proof {
                assert forall|j: int| 0 <= j < i implies parse_subquery_spec(#[trigger] vars[j])
                    == Ok::<Seq<char>, DiagnosticV>(subqueries.deep_view()[j]) by {
                    if j < i - 1 {
                        assert(subqueries@[j] == prev@[j]);
                        assert(prev.deep_view()[j] == subqueries.deep_view()[j]);
                    }
                }
            }
        }
        proof {
            lemma_parse_subqueries_all_ok(vars, subqueries.deep_view());
        }
        let mut extra: Vec<TypeRef> = Vec::new();
        extra.push(qr_bound());
        proof {
            assert(extra.deep_view() =~= seq![qr_bound_path()]);
        }
        let generics = impl_generics(&ctx, &input.generics, &extra);
        Ok(
            QueryResponsesImpl {
                target: input.name.clone(),
                generics,
                excluded_target: String::from_str("wasm32"),
                body: RegistryBody::Nested { subqueries },
            },
        )
    } else {
        let mut entries: Vec<QueryRegistryEntry> = Vec::new();
        let mut i: usize = 0;
        while i < n
            invariant
                0 <= i <= n,
                n == input.variants@.len(),
                vars == input.variants.deep_view(),
                read_config_spec(input.annotations.deep_view()) == Ok::<ContextV, Seq<char>>(
                    ctx.deep_view(),
                ),
                !ctx.is_nested,
                entries@.len() == i,
                forall|j: int| 0 <= j < i ==> parse_query_spec(#[trigger] vars[j]) == Ok::<
                    QueryRegistryEntryV,
                    DiagnosticV,
                >(entries.deep_view()[j]),
            decreases n - i,
        {
            let ghost prev = entries;
            match parse_query(&ctx, &input.variants[i]) {
                Ok(p) => {
                    entries.push(parse_tuple(p));
                },
                Err(d) => {
                    proof {
                        lemma_parse_queries_first_err(vars, i as int, d.deep_view());
                    }
                    return Err(d);
                },
            }
            i += 1;
            proof {
                assert forall|j: int| 0 <= j < i implies parse_query_spec(#[trigger] vars[j])
                    == Ok::<QueryRegistryEntryV, DiagnosticV>(entries.deep_view()[j]) by {
                    if j < i - 1 {
                        assert(entries@[j] == prev@[j]);
                        assert(prev.deep_view()[j] == entries.deep_view()[j]);
                    }
                }
            }
        }
        proof {
            lemma_parse_queries_all_ok(vars, entries.deep_view());
        }
        let sorted_keys = sort_keys(&entries);
        let empty_extra: Vec<TypeRef> = Vec::new();
        proof {
            assert(empty_extra.deep_view() =~= Seq::<Seq<char>>::empty());
        }
        let generics = impl_generics(&ctx, &input.generics, &empty_extra);
        Ok(
            QueryResponsesImpl {
                target: input.name.clone(),
                generics,
                excluded_target: String::from_str("wasm32"),
                body: RegistryBody::Flat { entries, sorted_keys },
            },
        )
    }
}

} // verus!

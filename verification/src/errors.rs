//! Errors surfaced by query planning and execution.

use vstd::prelude::*;

verus! {

/// The mathematical model of a query-execution error.
#[verifier::ext_equal]
pub enum ErrV {
    UnknownField(Seq<char>, Seq<char>),
    NotSupported(Seq<char>),
    UnknownFragment(Seq<char>),
    FragmentCycle(Seq<char>),
    UnknownType(Seq<char>),
}

/// A failure of query validation or resolution.
#[derive(Debug)]
pub enum QueryExecutionError {
    /// A selection references a field not declared on its stated type:
    /// the type's name, then the field's name.
    UnknownField(String, String),
    /// A requested capability the active resolver does not implement.
    NotSupported(String),
    /// A spread names a fragment the document does not define.
    UnknownFragment(String),
    /// Fragment spreads form a cycle through the named fragment.
    FragmentCycle(String),
    /// A type condition or root names a type the schema does not define.
    UnknownType(String),
}

impl View for QueryExecutionError {
    type V = ErrV;

    open spec fn view(&self) -> ErrV {
        match *self {
            QueryExecutionError::UnknownField(t, f) => ErrV::UnknownField(t@, f@),
            QueryExecutionError::NotSupported(c) => ErrV::NotSupported(c@),
            QueryExecutionError::UnknownFragment(n) => ErrV::UnknownFragment(n@),
            QueryExecutionError::FragmentCycle(n) => ErrV::FragmentCycle(n@),
            QueryExecutionError::UnknownType(n) => ErrV::UnknownType(n@),
        }
    }
}

/// The models of the first `n` errors.
pub open spec fn errs_view_upto(errs: Vec<QueryExecutionError>, n: int) -> Seq<ErrV>
    decreases n,
{
    if n <= 0 || n > errs.len() {
        Seq::empty()
    } else {
        errs_view_upto(errs, n - 1).push(errs[n - 1]@)
    }
}

pub open spec fn errs_view(errs: Vec<QueryExecutionError>) -> Seq<ErrV> {
    errs_view_upto(errs, errs.len() as int)
}

pub proof fn lemma_errs_view(errs: Vec<QueryExecutionError>, n: int)
    requires
        0 <= n <= errs.len(),
    ensures
        errs_view_upto(errs, n).len() == n,
        forall|k: int| 0 <= k < n ==> errs_view_upto(errs, n)[k] == errs[k]@,
    decreases n,
{
    if n > 0 {
        lemma_errs_view(errs, n - 1);
    }
}

/// A copy of an error with the same model.
pub fn duplicate_err(e: &QueryExecutionError) -> (r: QueryExecutionError)
    ensures
        r@ == e@,
{
    match e {
        QueryExecutionError::UnknownField(t, f) => QueryExecutionError::UnknownField(
            t.clone(),
            f.clone(),
        ),
        QueryExecutionError::NotSupported(c) => QueryExecutionError::NotSupported(c.clone()),
        QueryExecutionError::UnknownFragment(n) => QueryExecutionError::UnknownFragment(n.clone()),
        QueryExecutionError::FragmentCycle(n) => QueryExecutionError::FragmentCycle(n.clone()),
        QueryExecutionError::UnknownType(n) => QueryExecutionError::UnknownType(n.clone()),
    }
}

/// Pushing one error extends the model by its model.
pub proof fn lemma_errs_view_push(
    older: Vec<QueryExecutionError>,
    newer: Vec<QueryExecutionError>,
    x: QueryExecutionError,
)
    requires
        newer@ == older@.push(x),
    ensures
        errs_view(newer) == errs_view(older).push(x@),
{
    lemma_errs_view(older, older@.len() as int);
    lemma_errs_view(newer, newer@.len() as int);
    assert(errs_view(newer) =~= errs_view(older).push(x@));
}

/// Appends copies of every error in `sub`.
pub fn append_errs(r: &mut Vec<QueryExecutionError>, sub: &Vec<QueryExecutionError>)
    ensures
        errs_view(*final(r)) == errs_view(*old(r)) + errs_view(*sub),
{
    let ghost base = errs_view(*old(r));
    let ghost subv = errs_view(*sub);
    proof {
        lemma_errs_view(*sub, sub@.len() as int);
        assert(errs_view(*r) =~= base + subv.subrange(0, 0));
    }
    let mut j: usize = 0;
    while j < sub.len()
        invariant
            j <= sub.len(),
            base == errs_view(*old(r)),
            subv == errs_view(*sub),
            subv.len() == sub@.len(),
            forall|k: int| 0 <= k < sub@.len() ==> subv[k] == sub@[k]@,
            errs_view(*r) == base + subv.subrange(0, j as int),
        decreases sub.len() - j,
    {
        let ghost mid = *r;
        let d = duplicate_err(&sub[j]);
        let ghost dv = d@;
        r.push(d);
        proof {
            lemma_errs_view_push(mid, *r, r@[r@.len() - 1]);
            assert(dv == subv[j as int]);
            assert((base + subv.subrange(0, j as int)).push(subv[j as int]) =~= base
                + subv.subrange(0, j + 1));
        }
        j += 1;
    }
    proof {
        assert(subv.subrange(0, sub@.len() as int) =~= subv);
    }
}

} // verus!
